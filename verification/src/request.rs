//! The requests that are sent to the responses endpoint, and their JSON.

use crate::json::{add_member, members_of, values_of, Json, JsonView};
use crate::model::{
    clamped_effort, clamping_is_idempotent, model_id, normalize_model_id, resolve_reasoning_effort,
    wanted_effort,
};
use crate::text::{opt_str, opt_text, texts};
use vstd::prelude::*;
use vstd::string::*;

verus! {

/// One piece of an input's content.
#[derive(Debug)]
pub struct ResponsesInputContent {
    pub kind: String,
    pub text: Option<String>,
    pub image_url: Option<String>,
}

/// One turn of the conversation.
#[derive(Debug)]
pub struct ResponsesInput {
    pub role: String,
    pub content: Vec<ResponsesInputContent>,
}

/// How the answer's text is to be.
#[derive(Debug)]
pub struct ResponsesTextOptions {
    pub verbosity: String,
}

/// How the model is to reason.
#[derive(Debug)]
pub struct ResponsesReasoningOptions {
    pub effort: String,
    pub summary: String,
}

/// A request for an answer.
#[derive(Debug)]
pub struct ResponsesRequest {
    pub model: String,
    pub input: Vec<ResponsesInput>,
    pub instructions: String,
    pub store: bool,
    pub stream: bool,
    pub text: ResponsesTextOptions,
    pub reasoning: ResponsesReasoningOptions,
    pub include_parts: Vec<String>,
    pub tool_choice: String,
    pub parallel_tool_calls: bool,
}

/// The model of [`ResponsesInputContent`].
pub struct PieceView {
    pub kind: Seq<char>,
    pub text: Option<Seq<char>>,
    pub image_url: Option<Seq<char>>,
}

/// The model of [`ResponsesInput`].
pub struct InputView {
    pub role: Seq<char>,
    pub content: Seq<PieceView>,
}

/// The model of [`ResponsesRequest`].
pub struct RequestView {
    pub model: Seq<char>,
    pub input: Seq<InputView>,
    pub instructions: Seq<char>,
    pub store: bool,
    pub stream: bool,
    pub verbosity: Seq<char>,
    pub effort: Seq<char>,
    pub summary: Seq<char>,
    pub include_parts: Seq<Seq<char>>,
    pub tool_choice: Seq<char>,
    pub parallel_tool_calls: bool,
}

impl View for ResponsesInputContent {
    type V = PieceView;

    open spec fn view(&self) -> PieceView {
        PieceView { kind: self.kind@, text: opt_text(self.text), image_url: opt_text(self.image_url) }
    }
}

/// What a list of content pieces holds.
pub open spec fn pieces(v: Seq<ResponsesInputContent>) -> Seq<PieceView> {
    v.map_values(|p: ResponsesInputContent| p@)
}

impl View for ResponsesInput {
    type V = InputView;

    open spec fn view(&self) -> InputView {
        InputView { role: self.role@, content: pieces(self.content@) }
    }
}

/// What a list of turns holds.
pub open spec fn inputs(v: Seq<ResponsesInput>) -> Seq<InputView> {
    v.map_values(|i: ResponsesInput| i@)
}

impl View for ResponsesRequest {
    type V = RequestView;

    open spec fn view(&self) -> RequestView {
        RequestView {
            model: self.model@,
            input: inputs(self.input@),
            instructions: self.instructions@,
            store: self.store,
            stream: self.stream,
            verbosity: self.text.verbosity@,
            effort: self.reasoning.effort@,
            summary: self.reasoning.summary@,
            include_parts: texts(self.include_parts@),
            tool_choice: self.tool_choice@,
            parallel_tool_calls: self.parallel_tool_calls,
        }
    }
}

/// A member of an object that is left out where there is no text for it.
pub open spec fn opt_member(name: Seq<char>, text: Option<Seq<char>>) -> Seq<(Seq<char>, JsonView)> {
    match text {
        Some(s) => seq![(name, JsonView::Text(s))],
        None => Seq::empty(),
    }
}

/// The JSON of a content piece.
pub open spec fn piece_json(p: PieceView) -> JsonView {
    JsonView::Object(
        seq![("type"@, JsonView::Text(p.kind))] + opt_member("text"@, p.text) + opt_member(
            "image_url"@,
            p.image_url,
        ),
    )
}

/// The JSON of a turn.
pub open spec fn input_json(i: InputView) -> JsonView {
    JsonView::Object(
        seq![
            ("role"@, JsonView::Text(i.role)),
            ("content"@, JsonView::Array(i.content.map_values(|p: PieceView| piece_json(p)))),
        ],
    )
}

/// The JSON of a request.
pub open spec fn request_json(r: RequestView) -> JsonView {
    JsonView::Object(
        seq![
            ("model"@, JsonView::Text(r.model)),
            ("input"@, JsonView::Array(r.input.map_values(|i: InputView| input_json(i)))),
            ("instructions"@, JsonView::Text(r.instructions)),
            ("store"@, JsonView::Bool(r.store)),
            ("stream"@, JsonView::Bool(r.stream)),
            ("text"@, JsonView::Object(seq![("verbosity"@, JsonView::Text(r.verbosity))])),
            (
                "reasoning"@,
                JsonView::Object(
                    seq![
                        ("effort"@, JsonView::Text(r.effort)),
                        ("summary"@, JsonView::Text(r.summary)),
                    ],
                ),
            ),
            (
                "include"@,
                JsonView::Array(r.include_parts.map_values(|s: Seq<char>| JsonView::Text(s))),
            ),
            ("tool_choice"@, JsonView::Text(r.tool_choice)),
            ("parallel_tool_calls"@, JsonView::Bool(r.parallel_tool_calls)),
        ],
    )
}

impl ResponsesInputContent {
    /// The JSON of the piece: its kind is called `type`, and a text or an image
    /// that is not there is left out.
    pub fn to_json(&self) -> (r: Json)
        ensures
            r@ == piece_json(self@),
    {
        let mut members: Vec<(String, Json)> = Vec::new();
        add_member(&mut members, "type", Json::text(self.kind.as_str()));
        if let Some(text) = &self.text {
            add_member(&mut members, "text", Json::text(text.as_str()));
        }
        if let Some(image_url) = &self.image_url {
            add_member(&mut members, "image_url", Json::text(image_url.as_str()));
        }
        assert(members_of(members@) =~= seq![("type"@, JsonView::Text(self@.kind))] + opt_member(
            "text"@,
            self@.text,
        ) + opt_member("image_url"@, self@.image_url));
        Json::object(members)
    }
}

impl ResponsesInput {
    /// The JSON of the turn.
    pub fn to_json(&self) -> (r: Json)
        ensures
            r@ == input_json(self@),
    {
        let mut items: Vec<Json> = Vec::new();
        let mut i: usize = 0;
        while i < self.content.len()
            invariant
                i <= self.content@.len(),
                values_of(items@) =~= self@.content.take(i as int).map_values(
                    |p: PieceView| piece_json(p),
                ),
            decreases self.content@.len() - i,
        {
            let ghost done = values_of(items@);
            items.push(self.content[i].to_json());
            assert(values_of(items@) =~= done.push(piece_json(self@.content[i as int])));
            i += 1;
        }
        assert(self@.content.take(i as int) =~= self@.content);
        let mut members: Vec<(String, Json)> = Vec::new();
        add_member(&mut members, "role", Json::text(self.role.as_str()));
        add_member(&mut members, "content", Json::array(items));
        assert(members_of(members@) =~= input_json(self@)->Object_0);
        Json::object(members)
    }
}

impl ResponsesRequest {
    /// The JSON of the request.
    pub fn to_json(&self) -> (r: Json)
        ensures
            r@ == request_json(self@),
    {
        let mut turns: Vec<Json> = Vec::new();
        let mut i: usize = 0;
        while i < self.input.len()
            invariant
                i <= self.input@.len(),
                values_of(turns@) =~= self@.input.take(i as int).map_values(
                    |t: InputView| input_json(t),
                ),
            decreases self.input@.len() - i,
        {
            let ghost done = values_of(turns@);
            turns.push(self.input[i].to_json());
            assert(values_of(turns@) =~= done.push(input_json(self@.input[i as int])));
            i += 1;
        }
        assert(self@.input.take(i as int) =~= self@.input);
        let mut parts: Vec<Json> = Vec::new();
        let mut k: usize = 0;
        while k < self.include_parts.len()
            invariant
                k <= self.include_parts@.len(),
                values_of(parts@) =~= self@.include_parts.take(k as int).map_values(
                    |s: Seq<char>| JsonView::Text(s),
                ),
            decreases self.include_parts@.len() - k,
        {
            let ghost done = values_of(parts@);
            parts.push(Json::text(self.include_parts[k].as_str()));
            assert(values_of(parts@) =~= done.push(JsonView::Text(self@.include_parts[k as int])));
            k += 1;
        }
        assert(self@.include_parts.take(k as int) =~= self@.include_parts);
        let mut text: Vec<(String, Json)> = Vec::new();
        add_member(&mut text, "verbosity", Json::text(self.text.verbosity.as_str()));
        assert(members_of(text@) =~= seq![("verbosity"@, JsonView::Text(self@.verbosity))]);
        let mut reasoning: Vec<(String, Json)> = Vec::new();
        add_member(&mut reasoning, "effort", Json::text(self.reasoning.effort.as_str()));
        add_member(&mut reasoning, "summary", Json::text(self.reasoning.summary.as_str()));
        assert(members_of(reasoning@) =~= seq![
            ("effort"@, JsonView::Text(self@.effort)),
            ("summary"@, JsonView::Text(self@.summary)),
        ]);
        let mut members: Vec<(String, Json)> = Vec::new();
        add_member(&mut members, "model", Json::text(self.model.as_str()));
        add_member(&mut members, "input", Json::array(turns));
        add_member(&mut members, "instructions", Json::text(self.instructions.as_str()));
        add_member(&mut members, "store", Json::Bool(self.store));
        add_member(&mut members, "stream", Json::Bool(self.stream));
        add_member(&mut members, "text", Json::object(text));
        add_member(&mut members, "reasoning", Json::object(reasoning));
        add_member(&mut members, "include", Json::array(parts));
        add_member(&mut members, "tool_choice", Json::text(self.tool_choice.as_str()));
        add_member(&mut members, "parallel_tool_calls", Json::Bool(self.parallel_tool_calls));
        assert(members_of(members@) =~= request_json(self@)->Object_0);
        Json::object(members)
    }
}

/// The request for a model to go on from a conversation. It asks for a stream,
/// and for an effort that the model takes.
pub open spec fn request_for(
    model: Seq<char>,
    input: Seq<InputView>,
    instructions: Seq<char>,
    configured: Option<Seq<char>>,
    environment: Option<Seq<char>>,
) -> RequestView {
    RequestView {
        model: model_id(model),
        input,
        instructions,
        store: false,
        stream: true,
        verbosity: "medium"@,
        effort: clamped_effort(model, wanted_effort(configured, environment)),
        summary: "auto"@,
        include_parts: seq!["reasoning.encrypted_content"@],
        tool_choice: "auto"@,
        parallel_tool_calls: true,
    }
}

/// The request for a model to go on from a conversation. It asks for a stream,
/// and for an effort that the model takes; `configured` and `environment` are
/// the efforts that the configuration and the environment name.
pub fn build_request(
    model: &str,
    input: Vec<ResponsesInput>,
    instructions: String,
    configured: Option<&str>,
    environment: Option<&str>,
) -> (r: ResponsesRequest)
    ensures
        r@ == request_for(
            model@,
            inputs(input@),
            instructions@,
            opt_str(configured),
            opt_str(environment),
        ),
{
    let id = normalize_model_id(model);
    proof {
        clamping_is_idempotent(
            model@,
            wanted_effort(opt_str(configured), opt_str(environment)),
        );
    }
    let mut parts: Vec<String> = Vec::new();
    parts.push("reasoning.encrypted_content".to_owned());
    assert(texts(parts@) =~= seq!["reasoning.encrypted_content"@]);
    ResponsesRequest {
        model: id.to_owned(),
        input,
        instructions,
        store: false,
        stream: true,
        text: ResponsesTextOptions { verbosity: "medium".to_owned() },
        reasoning: ResponsesReasoningOptions {
            effort: resolve_reasoning_effort(id, configured, environment),
            summary: "auto".to_owned(),
        },
        include_parts: parts,
        tool_choice: "auto".to_owned(),
        parallel_tool_calls: true,
    }
}

/// The JSON of a piece has its kind as `type`, its text and its image where they
/// are there, and neither where it is not.
pub proof fn piece_json_reads_back(p: PieceView)
    ensures
        piece_json(p).text_at("type"@) == Some(p.kind),
        piece_json(p).text_at("text"@) == p.text,
        piece_json(p).text_at("image_url"@) == p.image_url,
        p.text is None ==> piece_json(p).get("text"@) is None,
        p.image_url is None ==> piece_json(p).get("image_url"@) is None,
{
    reveal_strlit("type");
    reveal_strlit("text");
    reveal_strlit("image_url");
    assert("type"@[1] == 'y' && "text"@[1] == 'e');
    assert("type"@.len() == 4 && "text"@.len() == 4 && "image_url"@.len() == 9);
    let members = piece_json(p)->Object_0;
    let behind = opt_member("text"@, p.text) + opt_member("image_url"@, p.image_url);
    assert(members.drop_first() =~= behind);
    if p.text is Some {
        assert(behind.drop_first() =~= opt_member("image_url"@, p.image_url));
    }
    reveal_with_fuel(crate::json::member, 4);
}

} // verus!
