//! The values that the responses endpoint sends, and how they are read from JSON.

use crate::json::{opt_json_ref, Json, JsonView};
use crate::text::{first_nonempty, nonblank, opt_str, opt_text, same_text};
use vstd::prelude::*;

verus! {

/// A response as a whole.
#[derive(Debug)]
pub struct ResponsesResponse {
    pub output: Vec<ResponsesOutput>,
    pub output_text: Option<String>,
}

/// One item of a response's output.
#[derive(Debug)]
pub struct ResponsesOutput {
    pub content: Vec<ResponsesContent>,
}

/// One piece of an output item's content.
#[derive(Debug)]
pub struct ResponsesContent {
    pub kind: Option<String>,
    pub text: Option<String>,
}

/// The model of [`ResponsesContent`].
pub struct ContentView {
    pub kind: Option<Seq<char>>,
    pub text: Option<Seq<char>>,
}

/// The model of [`ResponsesResponse`]; an output item is the sequence of its pieces.
pub struct ResponseView {
    pub output: Seq<Seq<ContentView>>,
    pub output_text: Option<Seq<char>>,
}

impl View for ResponsesContent {
    type V = ContentView;

    open spec fn view(&self) -> ContentView {
        ContentView { kind: opt_text(self.kind), text: opt_text(self.text) }
    }
}

/// What a list of content pieces holds.
pub open spec fn contents(v: Seq<ResponsesContent>) -> Seq<ContentView> {
    v.map_values(|c: ResponsesContent| c@)
}

impl View for ResponsesOutput {
    type V = Seq<ContentView>;

    open spec fn view(&self) -> Seq<ContentView> {
        contents(self.content@)
    }
}

/// What a list of output items holds.
pub open spec fn outputs(v: Seq<ResponsesOutput>) -> Seq<Seq<ContentView>> {
    v.map_values(|o: ResponsesOutput| o@)
}

impl View for ResponsesResponse {
    type V = ResponseView;

    open spec fn view(&self) -> ResponseView {
        ResponseView { output: outputs(self.output@), output_text: opt_text(self.output_text) }
    }
}

/// Reads an optional text: `null` and an absent value are no text, and anything
/// but a text is refused.
pub open spec fn read_opt_text(v: Option<JsonView>) -> Option<Option<Seq<char>>> {
    match v {
        None => Some(None),
        Some(JsonView::Null) => Some(None),
        Some(JsonView::Text(s)) => Some(Some(s)),
        Some(_) => None,
    }
}

/// Reads one piece of content: an object, or the two values in order.
pub open spec fn read_content(v: JsonView) -> Option<ContentView> {
    let fields = match v {
        JsonView::Object(_) => Some((read_opt_text(v.get("type"@)), read_opt_text(v.get("text"@)))),
        JsonView::Array(items) => if items.len() == 2 {
            Some((read_opt_text(Some(items[0])), read_opt_text(Some(items[1]))))
        } else {
            None
        },
        _ => None,
    };
    match fields {
        Some((Some(kind), Some(text))) => Some(ContentView { kind, text }),
        _ => None,
    }
}

/// Reads each value with `read`; one that is refused refuses the list.
pub open spec fn read_all<T>(items: Seq<JsonView>, read: spec_fn(JsonView) -> Option<T>) -> Option<
    Seq<T>,
>
    decreases items.len(),
{
    if items.len() == 0 {
        Some(Seq::empty())
    } else {
        match (read_all(items.drop_last(), read), read(items.last())) {
            (Some(done), Some(t)) => Some(done.push(t)),
            _ => None,
        }
    }
}

/// Reads a list, which is empty where the value is absent.
pub open spec fn read_list<T>(
    v: Option<JsonView>,
    read: spec_fn(JsonView) -> Option<T>,
) -> Option<Seq<T>> {
    match v {
        None => Some(Seq::empty()),
        Some(JsonView::Array(items)) => read_all(items, read),
        Some(_) => None,
    }
}

/// The value at index `i`, where there is one.
pub open spec fn nth(items: Seq<JsonView>, i: int) -> Option<JsonView> {
    if 0 <= i < items.len() {
        Some(items[i])
    } else {
        None
    }
}

/// Reads an output item: an object, or its one value in an array.
pub open spec fn read_output(v: JsonView) -> Option<Seq<ContentView>> {
    match v {
        JsonView::Object(_) => read_list(v.get("content"@), |c: JsonView| read_content(c)),
        JsonView::Array(items) => if items.len() <= 1 {
            read_list(nth(items, 0), |c: JsonView| read_content(c))
        } else {
            None
        },
        _ => None,
    }
}

/// Reads a response: an object, or its values in order in an array.
pub open spec fn read_response(v: JsonView) -> Option<ResponseView> {
    let fields = match v {
        JsonView::Object(_) => Some((v.get("output"@), v.get("output_text"@))),
        JsonView::Array(items) => if items.len() <= 2 {
            Some((nth(items, 0), nth(items, 1)))
        } else {
            None
        },
        _ => None,
    };
    match fields {
        Some((output, output_text)) => match (
            read_list(output, |o: JsonView| read_output(o)),
            read_opt_text(output_text),
        ) {
            (Some(output), Some(output_text)) => Some(ResponseView { output, output_text }),
            _ => None,
        },
        None => None,
    }
}

fn decode_opt_text(v: Option<&Json>) -> (r: Result<Option<String>, ()>)
    ensures
        r matches Ok(t) ==> read_opt_text(opt_json_ref(v)) == Some(opt_text(t)),
        r is Err ==> read_opt_text(opt_json_ref(v)) is None,
{
    match v {
        None => Ok(None),
        Some(Json::Null) => Ok(None),
        Some(Json::Text(s)) => Ok(Some(s.clone())),
        Some(_) => Err(()),
    }
}

/// Reads one piece of content.
pub fn decode_content(v: &Json) -> (r: Option<ResponsesContent>)
    ensures
        (match r {
            Some(c) => Some(c@),
            None => None,
        }) == read_content(v@),
{
    let (kind, text) = match v {
        Json::Object(_) => (decode_opt_text(v.get("type")), decode_opt_text(v.get("text"))),
        Json::Array(items) => {
            if items.len() != 2 {
                return None;
            }
            assert(v@->Array_0[0] == items@[0]@);
            assert(v@->Array_0[1] == items@[1]@);
            (decode_opt_text(Some(&items[0])), decode_opt_text(Some(&items[1])))
        },
        _ => return None,
    };
    match (kind, text) {
        (Ok(kind), Ok(text)) => Some(ResponsesContent { kind, text }),
        _ => None,
    }
}

proof fn lemma_read_all_prefix<T>(
    items: Seq<JsonView>,
    read: spec_fn(JsonView) -> Option<T>,
    i: int,
)
    requires
        0 <= i <= items.len(),
        read_all(items.take(i), read) is None,
    ensures
        read_all(items, read) is None,
    decreases items.len(),
{
    if i == items.len() {
        assert(items.take(i) =~= items);
    } else {
        assert(items.drop_last().take(i) =~= items.take(i));
        lemma_read_all_prefix(items.drop_last(), read, i);
    }
}

/// Reads a list of content pieces.
fn decode_contents(v: Option<&Json>) -> (r: Option<Vec<ResponsesContent>>)
    ensures
        (match r {
            Some(cs) => Some(contents(cs@)),
            None => None,
        }) == read_list(opt_json_ref(v), |c: JsonView| read_content(c)),
{
    let ghost read = |c: JsonView| read_content(c);
    let mut out: Vec<ResponsesContent> = Vec::new();
    match v {
        None => {
            assert(contents(out@) =~= Seq::<ContentView>::empty());
            Some(out)
        },
        Some(value) => match value {
            Json::Array(items) => {
                let ghost all = value@->Array_0;
                let mut i: usize = 0;
                assert(contents(out@) =~= Seq::<ContentView>::empty());
                while i < items.len()
                    invariant
                        i <= items@.len(),
                        v == Some(value),
                        value@ == JsonView::Array(all),
                        all.len() == items@.len(),
                        forall|k: int| 0 <= k < all.len() ==> #[trigger] all[k] == items@[k]@,
                        read == (|c: JsonView| read_content(c)),
                        read_all(all.take(i as int), read) == Some(contents(out@)),
                    decreases items@.len() - i,
                {
                    assert(all.take(i + 1).drop_last() =~= all.take(i as int));
                    assert(all.take(i + 1).last() == items@[i as int]@);
                    let ghost before = contents(out@);
                    match decode_content(&items[i]) {
                        Some(c) => {
                            out.push(c);
                            assert(contents(out@) =~= before.push(c@));
                        },
                        None => {
                            proof {
                                lemma_read_all_prefix(all, read, i + 1);
                            }
                            return None;
                        },
                    }
                    i += 1;
                }
                assert(all.take(i as int) =~= all);
                Some(out)
            },
            _ => None,
        },
    }
}

/// Reads an output item.
pub fn decode_output(v: &Json) -> (r: Option<ResponsesOutput>)
    ensures
        (match r {
            Some(o) => Some(o@),
            None => None,
        }) == read_output(v@),
{
    let content = match v {
        Json::Object(_) => decode_contents(v.get("content")),
        Json::Array(items) => {
            if items.len() > 1 {
                return None;
            }
            if items.len() == 1 {
                assert(v@->Array_0[0] == items@[0]@);
                decode_contents(Some(&items[0]))
            } else {
                decode_contents(None)
            }
        },
        _ => return None,
    };
    match content {
        Some(content) => Some(ResponsesOutput { content }),
        None => None,
    }
}

/// Reads a list of output items.
fn decode_outputs(v: Option<&Json>) -> (r: Option<Vec<ResponsesOutput>>)
    ensures
        (match r {
            Some(os) => Some(outputs(os@)),
            None => None,
        }) == read_list(opt_json_ref(v), |o: JsonView| read_output(o)),
{
    let ghost read = |o: JsonView| read_output(o);
    let mut out: Vec<ResponsesOutput> = Vec::new();
    match v {
        None => {
            assert(outputs(out@) =~= Seq::<Seq<ContentView>>::empty());
            Some(out)
        },
        Some(value) => match value {
            Json::Array(items) => {
                let ghost all = value@->Array_0;
                let mut i: usize = 0;
                assert(outputs(out@) =~= Seq::<Seq<ContentView>>::empty());
                while i < items.len()
                    invariant
                        i <= items@.len(),
                        v == Some(value),
                        value@ == JsonView::Array(all),
                        all.len() == items@.len(),
                        forall|k: int| 0 <= k < all.len() ==> #[trigger] all[k] == items@[k]@,
                        read == (|o: JsonView| read_output(o)),
                        read_all(all.take(i as int), read) == Some(outputs(out@)),
                    decreases items@.len() - i,
                {
                    assert(all.take(i + 1).drop_last() =~= all.take(i as int));
                    assert(all.take(i + 1).last() == items@[i as int]@);
                    let ghost before = outputs(out@);
                    match decode_output(&items[i]) {
                        Some(o) => {
                            out.push(o);
                            assert(outputs(out@) =~= before.push(o@));
                        },
                        None => {
                            proof {
                                lemma_read_all_prefix(all, read, i + 1);
                            }
                            return None;
                        },
                    }
                    i += 1;
                }
                assert(all.take(i as int) =~= all);
                Some(out)
            },
            _ => None,
        },
    }
}

/// Reads a response.
pub fn decode_response(v: &Json) -> (r: Option<ResponsesResponse>)
    ensures
        (match r {
            Some(o) => Some(o@),
            None => None,
        }) == read_response(v@),
{
    let (output, output_text) = match v {
        Json::Object(_) => (v.get("output"), v.get("output_text")),
        Json::Array(items) => {
            if items.len() > 2 {
                return None;
            }
            assert(items@.len() > 0 ==> v@->Array_0[0] == items@[0]@);
            assert(items@.len() > 1 ==> v@->Array_0[1] == items@[1]@);
            let first = if items.len() > 0 {
                Some(&items[0])
            } else {
                None
            };
            let second = if items.len() > 1 {
                Some(&items[1])
            } else {
                None
            };
            (first, second)
        },
        _ => return None,
    };
    match (decode_outputs(output), decode_opt_text(output_text)) {
        (Some(output), Ok(output_text)) => Some(ResponsesResponse { output, output_text }),
        _ => None,
    }
}

/// The first piece with a text that is not blank, trimmed; with `marked`, only
/// pieces of the kind `output_text` count.
pub open spec fn first_text(pieces: Seq<ContentView>, marked: bool) -> Option<Seq<char>>
    decreases pieces.len(),
{
    if pieces.len() == 0 {
        None
    } else if (marked ==> pieces[0].kind == Some("output_text"@)) && nonblank(pieces[0].text)
        is Some {
        nonblank(pieces[0].text)
    } else {
        first_text(pieces.drop_first(), marked)
    }
}

/// The text of a response: its summary text, else its first piece of output
/// text, else its first piece with any text; blank texts do not count.
pub open spec fn response_text(response: ResponseView) -> Option<Seq<char>> {
    let pieces = response.output.flatten();
    if nonblank(response.output_text) is Some {
        nonblank(response.output_text)
    } else if first_text(pieces, true) is Some {
        first_text(pieces, true)
    } else {
        first_text(pieces, false)
    }
}

proof fn lemma_first_text_concat(a: Seq<ContentView>, b: Seq<ContentView>, marked: bool)
    ensures
        first_text(a + b, marked) == (if first_text(a, marked) is Some {
            first_text(a, marked)
        } else {
            first_text(b, marked)
        }),
    decreases a.len(),
{
    if a.len() == 0 {
        assert(a + b =~= b);
    } else {
        assert((a + b).drop_first() =~= a.drop_first() + b);
        lemma_first_text_concat(a.drop_first(), b, marked);
    }
}

fn first_text_in(pieces: &Vec<ResponsesContent>, marked: bool) -> (r: Option<String>)
    ensures
        opt_text(r) == first_text(contents(pieces@), marked),
{
    let ghost all = contents(pieces@);
    let mut i: usize = 0;
    assert(all.skip(0) =~= all);
    while i < pieces.len()
        invariant
            i <= pieces@.len(),
            all == contents(pieces@),
            first_text(all, marked) == first_text(all.skip(i as int), marked),
        decreases pieces@.len() - i,
    {
        assert(all.skip(i as int)[0] == pieces@[i as int]@);
        assert(all.skip(i as int).drop_first() =~= all.skip(i + 1));
        let counts = !marked || match &pieces[i].kind {
            Some(kind) => same_text(kind.as_str(), "output_text"),
            None => false,
        };
        if counts {
            let text = first_nonempty(
                match &pieces[i].text {
                    Some(t) => Some(t.as_str()),
                    None => None,
                },
            );
            if text.is_some() {
                return text;
            }
        }
        i += 1;
    }
    None
}

fn first_text_among(items: &Vec<ResponsesOutput>, marked: bool) -> (r: Option<String>)
    ensures
        opt_text(r) == first_text(outputs(items@).flatten(), marked),
{
    let ghost all = outputs(items@);
    let mut i: usize = 0;
    assert(all.skip(0) =~= all);
    while i < items.len()
        invariant
            i <= items@.len(),
            all == outputs(items@),
            first_text(all.flatten(), marked) == first_text(all.skip(i as int).flatten(), marked),
        decreases items@.len() - i,
    {
        proof {
            assert(all.skip(i as int).first() == items@[i as int]@);
            assert(all.skip(i as int).drop_first() =~= all.skip(i + 1));
            lemma_first_text_concat(items@[i as int]@, all.skip(i + 1).flatten(), marked);
        }
        let text = first_text_in(&items[i].content, marked);
        if text.is_some() {
            return text;
        }
        i += 1;
    }
    None
}

/// The text of a response whose parts are given.
pub fn extract_text(output_text: Option<&str>, output: &Vec<ResponsesOutput>) -> (r: Option<String>)
    ensures
        opt_text(r) == response_text(
            ResponseView { output: outputs(output@), output_text: opt_str(output_text) },
        ),
{
    let summary = first_nonempty(output_text);
    if summary.is_some() {
        return summary;
    }
    let marked = first_text_among(output, true);
    if marked.is_some() {
        return marked;
    }
    first_text_among(output, false)
}

/// The text of a response: its summary text, else its first piece of output
/// text, else its first piece with any text; blank texts do not count.
pub fn extract_responses_text(response: &ResponsesResponse) -> (r: Option<String>)
    ensures
        opt_text(r) == response_text(response@),
{
    extract_text(
        match &response.output_text {
            Some(t) => Some(t.as_str()),
            None => None,
        },
        &response.output,
    )
}

/// A response's text is never blank, and comes trimmed.
pub proof fn response_text_is_trimmed(response: ResponseView)
    ensures
        response_text(response) matches Some(t) ==> t.len() > 0 && crate::text::trimmed(t) == t,
{
    lemma_first_text_is_trimmed(response.output.flatten(), true);
    lemma_first_text_is_trimmed(response.output.flatten(), false);
    if let Some(s) = response.output_text {
        crate::text::trimming_is_idempotent(s);
    }
}

proof fn lemma_first_text_is_trimmed(pieces: Seq<ContentView>, marked: bool)
    ensures
        first_text(pieces, marked) matches Some(t) ==> t.len() > 0 && crate::text::trimmed(t) == t,
    decreases pieces.len(),
{
    if pieces.len() > 0 {
        if let Some(s) = pieces[0].text {
            crate::text::trimming_is_idempotent(s);
        }
        lemma_first_text_is_trimmed(pieces.drop_first(), marked);
    }
}

} // verus!
