//! What is sent.

use crate::auth::{credentials_for, headers_for, AuthError, CredentialsView};
use crate::json::JsonView;
use crate::laws::values::members_are_found_by_name;
use crate::model::{clamped_effort, model_id, wanted_effort};
use crate::provider::known_capabilities;
use crate::request::{
    input_json, piece_json, piece_json_reads_back, request_for, request_json, InputView, PieceView,
    RequestView,
};
use vstd::prelude::*;

verus! {

/// The JSON of a turn has the turn's role, and a list of all its pieces, in order.
pub proof fn turns_read_back(turn: InputView)
    ensures
        input_json(turn).text_at("role"@) == Some(turn.role),
        input_json(turn).get("content"@) matches Some(JsonView::Array(items)) && {
            &&& items.len() == turn.content.len()
            &&& forall|i: int|
                0 <= i < items.len() ==> {
                    let piece = turn.content[i];
                    &&& (#[trigger] items[i]).text_at("type"@) == Some(piece.kind)
                    &&& items[i].text_at("text"@) == piece.text
                    &&& items[i].text_at("image_url"@) == piece.image_url
                    &&& piece.text is None ==> items[i].get("text"@) is None
                    &&& piece.image_url is None ==> items[i].get("image_url"@) is None
                    &&& items[i] is Object
                }
        },
        input_json(turn) matches JsonView::Object(members) && members.len() == 2,
{
    reveal_strlit("role");
    reveal_strlit("content");
    assert("role"@.len() == 4 && "content"@.len() == 7);
    let members = input_json(turn)->Object_0;
    members_are_found_by_name(members, "role"@, 0);
    members_are_found_by_name(members, "content"@, 1);
    let items = turn.content.map_values(|p: PieceView| piece_json(p));
    assert forall|i: int| 0 <= i < items.len() implies {
        let piece = turn.content[i];
        &&& (#[trigger] items[i]).text_at("type"@) == Some(piece.kind)
        &&& items[i].text_at("text"@) == piece.text
        &&& items[i].text_at("image_url"@) == piece.image_url
        &&& piece.text is None ==> items[i].get("text"@) is None
        &&& piece.image_url is None ==> items[i].get("image_url"@) is None
        &&& items[i] is Object
    } by {
        piece_json_reads_back(turn.content[i]);
    }
}

proof fn lemma_members_differ()
    ensures
        "model"@.len() == 5,
        "input"@.len() == 5,
        "model"@ != "input"@,
        "instructions"@.len() == 12,
        "store"@.len() == 5,
        "store"@ != "model"@,
        "store"@ != "input"@,
        "stream"@.len() == 6,
        "text"@.len() == 4,
        "reasoning"@.len() == 9,
        "include"@.len() == 7,
        "tool_choice"@.len() == 11,
        "parallel_tool_calls"@.len() == 19,
{
    reveal_strlit("model");
    reveal_strlit("input");
    reveal_strlit("instructions");
    reveal_strlit("store");
    reveal_strlit("stream");
    reveal_strlit("text");
    reveal_strlit("reasoning");
    reveal_strlit("include");
    reveal_strlit("tool_choice");
    reveal_strlit("parallel_tool_calls");
    assert("model"@[0] == 'm' && "input"@[0] == 'i' && "store"@[0] == 's');
}

/// The JSON of a request has every turn of the request, in order, each with its role and
/// its pieces.
pub proof fn requests_hold_every_turn(r: RequestView)
    ensures
        request_json(r).get("input"@) matches Some(JsonView::Array(items)) && {
            &&& items.len() == r.input.len()
            &&& forall|i: int|
                0 <= i < items.len() ==> {
                    &&& (#[trigger] items[i]) == input_json(r.input[i])
                    &&& items[i].text_at("role"@) == Some(r.input[i].role)
                    &&& items[i].get("content"@) matches Some(JsonView::Array(pieces))
                    &&& pieces.len() == r.input[i].content.len()
                    &&& forall|k: int|
                        0 <= k < pieces.len() ==> {
                            &&& (#[trigger] pieces[k]).text_at("type"@) == Some(
                                r.input[i].content[k].kind,
                            )
                            &&& pieces[k].text_at("text"@) == r.input[i].content[k].text
                            &&& pieces[k].text_at("image_url"@) == r.input[i].content[k].image_url
                        }
                }
        },
{
    lemma_members_differ();
    let members = request_json(r)->Object_0;
    members_are_found_by_name(members, "input"@, 1);
    let items = r.input.map_values(|i: InputView| input_json(i));
    assert forall|i: int| 0 <= i < items.len() implies {
        &&& (#[trigger] items[i]) == input_json(r.input[i])
        &&& items[i].text_at("role"@) == Some(r.input[i].role)
        &&& items[i].get("content"@) matches Some(JsonView::Array(pieces))
        &&& pieces.len() == r.input[i].content.len()
        &&& forall|k: int|
            0 <= k < pieces.len() ==> {
                &&& (#[trigger] pieces[k]).text_at("type"@) == Some(r.input[i].content[k].kind)
                &&& pieces[k].text_at("text"@) == r.input[i].content[k].text
                &&& pieces[k].text_at("image_url"@) == r.input[i].content[k].image_url
            }
    } by {
        turns_read_back(r.input[i]);
    }
}

/// The JSON of a request has everything else of the request under its name, and nothing
/// more.
pub proof fn requests_read_back(r: RequestView)
    ensures
        ({
            let json = request_json(r);
            &&& json.text_at("model"@) == Some(r.model)
            &&& json.text_at("instructions"@) == Some(r.instructions)
            &&& json.get("store"@) == Some(JsonView::Bool(r.store))
            &&& json.get("stream"@) == Some(JsonView::Bool(r.stream))
            &&& json.get("text"@) matches Some(text)
            &&& text.text_at("verbosity"@) == Some(r.verbosity)
            &&& json.get("reasoning"@) matches Some(reasoning)
            &&& reasoning.text_at("effort"@) == Some(r.effort)
            &&& reasoning.text_at("summary"@) == Some(r.summary)
            &&& json.get("include"@) matches Some(JsonView::Array(parts))
            &&& parts.len() == r.include_parts.len()
            &&& forall|i: int|
                0 <= i < parts.len() ==> #[trigger] parts[i] == JsonView::Text(r.include_parts[i])
            &&& json.text_at("tool_choice"@) == Some(r.tool_choice)
            &&& json.get("parallel_tool_calls"@) == Some(JsonView::Bool(r.parallel_tool_calls))
            &&& json matches JsonView::Object(members)
            &&& members.len() == 10
        }),
{
    lemma_members_differ();
    let members = request_json(r)->Object_0;
    members_are_found_by_name(members, "model"@, 0);
    members_are_found_by_name(members, "instructions"@, 2);
    members_are_found_by_name(members, "store"@, 3);
    members_are_found_by_name(members, "stream"@, 4);
    members_are_found_by_name(members, "text"@, 5);
    members_are_found_by_name(members, "reasoning"@, 6);
    members_are_found_by_name(members, "include"@, 7);
    members_are_found_by_name(members, "tool_choice"@, 8);
    members_are_found_by_name(members, "parallel_tool_calls"@, 9);
    let text = members[5].1->Object_0;
    members_are_found_by_name(text, "verbosity"@, 0);
    reveal_strlit("effort");
    reveal_strlit("summary");
    assert("effort"@.len() == 6 && "summary"@.len() == 7);
    let reasoning = members[6].1->Object_0;
    members_are_found_by_name(reasoning, "effort"@, 0);
    members_are_found_by_name(reasoning, "summary"@, 1);
}

/// Requests whose JSON is the same are the same: nothing of a request is lost.
pub proof fn different_requests_are_written_differently(a: RequestView, b: RequestView)
    requires
        request_json(a) == request_json(b),
    ensures
        a.model == b.model,
        a.instructions == b.instructions,
        a.effort == b.effort,
        a.input.len() == b.input.len(),
        forall|i: int|
            0 <= i < a.input.len() ==> (#[trigger] a.input[i]).role == b.input[i].role
                && a.input[i].content =~= b.input[i].content,
{
    requests_read_back(a);
    requests_read_back(b);
    requests_hold_every_turn(a);
    requests_hold_every_turn(b);
    let items = request_json(a).get("input"@).unwrap()->Array_0;
    assert forall|i: int| 0 <= i < a.input.len() implies (#[trigger] a.input[i]).role
        == b.input[i].role && a.input[i].content =~= b.input[i].content by {
        assert(items[i] == input_json(a.input[i]));
        let pieces = items[i].get("content"@).unwrap()->Array_0;
        assert forall|k: int| 0 <= k < pieces.len() implies a.input[i].content[k]
            == b.input[i].content[k] by {
            let piece = pieces[k];
            assert(piece.text_at("type"@) == Some(a.input[i].content[k].kind));
        }
    }
}

/// A request asks the model for a stream that is not stored, with the turns and the
/// instructions as they are, and for an effort that the model takes.
pub proof fn requests_ask_for_what_is_wanted(
    model: Seq<char>,
    input: Seq<InputView>,
    instructions: Seq<char>,
    configured: Option<Seq<char>>,
    environment: Option<Seq<char>>,
)
    ensures
        ({
            let r = request_for(model, input, instructions, configured, environment);
            &&& r.model == model_id(model)
            &&& r.input == input
            &&& r.instructions == instructions
            &&& r.stream && !r.store && r.parallel_tool_calls
            &&& r.effort == clamped_effort(model, wanted_effort(configured, environment))
            &&& r.verbosity == "medium"@ && r.summary == "auto"@ && r.tool_choice == "auto"@
            &&& r.include_parts == seq!["reasoning.encrypted_content"@]
        }),
{
}

/// Images can be sent; tools and caches are not the provider's own.
pub proof fn images_can_be_sent()
    ensures
        known_capabilities().vision,
        !known_capabilities().native_tool_calling,
        !known_capabilities().prompt_caching,
{
}

/// The profile names the account, whatever the token does; the token's account counts
/// only where the profile names none, and only with a token. The token itself stays as
/// it is.
pub proof fn profiles_name_the_account(
    account: Seq<char>,
    token: Seq<char>,
    named: Option<Seq<char>>,
    gateway: bool,
)
    ensures
        credentials_for(gateway, Some(account), Some(token), named) == Ok::<
            CredentialsView,
            AuthError,
        >(CredentialsView { access_token: Some(token), account_id: Some(account) }),
        credentials_for(gateway, None, Some(token), Some(account)) == Ok::<
            CredentialsView,
            AuthError,
        >(CredentialsView { access_token: Some(token), account_id: Some(account) }),
        credentials_for(true, None, Some(token), None) == Ok::<CredentialsView, AuthError>(
            CredentialsView { access_token: Some(token), account_id: None },
        ),
        credentials_for(true, None, None, named) == Ok::<CredentialsView, AuthError>(
            CredentialsView { access_token: None, account_id: None },
        ),
        credentials_for(true, Some(account), None, named) == Ok::<CredentialsView, AuthError>(
            CredentialsView { access_token: None, account_id: Some(account) },
        ),
{
}

/// Without a gateway a request without a token is refused for that, and one without an
/// account for that.
pub proof fn lacking_credentials_are_refused(
    profile_account: Option<Seq<char>>,
    named: Option<Seq<char>>,
    token: Seq<char>,
)
    ensures
        credentials_for(false, profile_account, None, named) == Err::<CredentialsView, AuthError>(
            AuthError::ProfileNotFound,
        ),
        credentials_for(false, None, Some(token), None) == Err::<CredentialsView, AuthError>(
            AuthError::AccountNotFound,
        ),
{
}

/// The headers that every request has, with what it authorizes itself by.
pub open spec fn common_headers(bearer: Seq<char>) -> Seq<(Seq<char>, Seq<char>)> {
    seq![
        ("Authorization"@, "Bearer "@ + bearer),
        ("OpenAI-Beta"@, "responses=experimental"@),
        ("originator"@, "pi"@),
        ("accept"@, "text/event-stream"@),
        ("Content-Type"@, "application/json"@),
    ]
}

/// Without a gateway a request shows the token and the account, and nothing of a key.
pub proof fn requests_show_token_and_account(
    key: Option<Seq<char>>,
    token: Seq<char>,
    account: Seq<char>,
)
    ensures
        headers_for(
            false,
            key,
            CredentialsView { access_token: Some(token), account_id: Some(account) },
        ) == common_headers(token) + seq![("chatgpt-account-id"@, account)],
{
}

/// A gateway is shown its key, and the token and the account in headers of their own, as
/// far as they are there.
pub proof fn gateways_are_shown_their_key(key: Seq<char>, token: Seq<char>, account: Seq<char>)
    ensures
        ({
            let shown = |t: Option<Seq<char>>, a: Option<Seq<char>>|
                headers_for(
                    true,
                    Some(key),
                    CredentialsView { access_token: t, account_id: a },
                );
            &&& shown(Some(token), Some(account)) == common_headers(key) + seq![
                ("chatgpt-account-id"@, account),
                ("x-openai-access-token"@, token),
                ("x-openai-account-id"@, account),
            ]
            &&& shown(Some(token), None) == common_headers(key) + seq![
                ("x-openai-access-token"@, token),
            ]
            &&& shown(None, Some(account)) == common_headers(key) + seq![
                ("chatgpt-account-id"@, account),
                ("x-openai-account-id"@, account),
            ]
            &&& shown(None, None) == common_headers(key)
        }),
{
    let shown = |t: Option<Seq<char>>, a: Option<Seq<char>>|
        headers_for(true, Some(key), CredentialsView { access_token: t, account_id: a });
    assert(shown(Some(token), Some(account)) =~= common_headers(key) + seq![
        ("chatgpt-account-id"@, account),
        ("x-openai-access-token"@, token),
        ("x-openai-account-id"@, account),
    ]);
    assert(shown(Some(token), None) =~= common_headers(key) + seq![
        ("x-openai-access-token"@, token),
    ]);
    assert(shown(None, Some(account)) =~= common_headers(key) + seq![
        ("chatgpt-account-id"@, account),
        ("x-openai-account-id"@, account),
    ]);
    assert(shown(None, None) =~= common_headers(key));
}

} // verus!
