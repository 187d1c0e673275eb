//! The credentials that a request carries.

use crate::text::{opt_str, opt_text};
use vstd::prelude::*;
use vstd::string::*;

verus! {

/// Why a request has no credentials.
#[derive(Debug, Clone, Copy, PartialEq, Eq, Structural)]
pub enum AuthError {
    /// There is no access token.
    ProfileNotFound,
    /// Neither the profile nor the access token names the account.
    AccountNotFound,
}

impl AuthError {
    /// What a user reads of the error.
    pub open spec fn text(self) -> Seq<char> {
        match self {
            AuthError::ProfileNotFound => "OpenAI Codex auth profile not found. Run `zeroclaw auth login --provider openai-codex`."@,
            AuthError::AccountNotFound => "OpenAI Codex account id not found in auth profile/token. Run `zeroclaw auth login --provider openai-codex` again."@,
        }
    }

    /// What a user reads of the error.
    pub fn message(&self) -> (r: String)
        ensures
            r@ == self.text(),
    {
        match self {
            AuthError::ProfileNotFound => {
                "OpenAI Codex auth profile not found. Run `zeroclaw auth login --provider openai-codex`.".to_owned()
            },
            AuthError::AccountNotFound => {
                "OpenAI Codex account id not found in auth profile/token. Run `zeroclaw auth login --provider openai-codex` again.".to_owned()
            },
        }
    }
}

/// An access token, and the account that it is for.
#[derive(Debug)]
pub struct Credentials {
    pub access_token: Option<String>,
    pub account_id: Option<String>,
}

/// The model of [`Credentials`].
pub struct CredentialsView {
    pub access_token: Option<Seq<char>>,
    pub account_id: Option<Seq<char>>,
}

impl View for Credentials {
    type V = CredentialsView;

    open spec fn view(&self) -> CredentialsView {
        CredentialsView {
            access_token: opt_text(self.access_token),
            account_id: opt_text(self.account_id),
        }
    }
}

/// What is made of a lookup in the credentials store: where a gateway's key
/// stands in for credentials, one that fails finds nothing.
pub fn accept_lookup<T, E>(gateway: bool, found: Result<Option<T>, E>) -> (r: Result<Option<T>, E>)
    ensures
        r == (if gateway && found is Err {
            Ok(None)
        } else {
            found
        }),
{
    match found {
        Ok(value) => Ok(value),
        Err(error) => if gateway {
            Ok(None)
        } else {
            Err(error)
        },
    }
}

/// The account: the profile's, or else the one that the access token names.
pub open spec fn known_account(
    profile_account: Option<Seq<char>>,
    token: Option<Seq<char>>,
    token_account: Option<Seq<char>>,
) -> Option<Seq<char>> {
    if profile_account is Some {
        profile_account
    } else if token is Some {
        token_account
    } else {
        None
    }
}

/// The credentials of a request. Only where a gateway's key stands in for them
/// may they be lacking.
pub open spec fn credentials_for(
    gateway: bool,
    profile_account: Option<Seq<char>>,
    token: Option<Seq<char>>,
    token_account: Option<Seq<char>>,
) -> Result<CredentialsView, AuthError> {
    let account = known_account(profile_account, token, token_account);
    if gateway {
        Ok(CredentialsView { access_token: token, account_id: account })
    } else if token is None {
        Err(AuthError::ProfileNotFound)
    } else if account is None {
        Err(AuthError::AccountNotFound)
    } else {
        Ok(CredentialsView { access_token: token, account_id: account })
    }
}

/// The credentials of a request. `profile_account` is the account that the profile
/// names, and `token_account` the one that the access token does. Only where a
/// gateway's key stands in for credentials may they be lacking.
pub fn resolve_credentials(
    gateway: bool,
    profile_account: Option<String>,
    token: Option<String>,
    token_account: Option<String>,
) -> (r: Result<Credentials, AuthError>)
    ensures
        (match r {
            Ok(credentials) => Ok(credentials@),
            Err(e) => Err(e),
        }) == credentials_for(
            gateway,
            opt_text(profile_account),
            opt_text(token),
            opt_text(token_account),
        ),
{
    let account = if profile_account.is_some() {
        profile_account
    } else if token.is_some() {
        token_account
    } else {
        None
    };
    if !gateway {
        if token.is_none() {
            return Err(AuthError::ProfileNotFound);
        }
        if account.is_none() {
            return Err(AuthError::AccountNotFound);
        }
    }
    Ok(Credentials { access_token: token, account_id: account })
}

/// A header that is left out where there is no value for it.
pub open spec fn opt_header(name: Seq<char>, value: Option<Seq<char>>) -> Seq<(Seq<char>, Seq<char>)> {
    match value {
        Some(v) => seq![(name, v)],
        None => Seq::empty(),
    }
}

/// A text, or an empty one where there is none.
pub open spec fn or_empty(value: Option<Seq<char>>) -> Seq<char> {
    match value {
        Some(v) => v,
        None => Seq::empty(),
    }
}

/// The headers of a request. A gateway is shown its key, and the credentials in
/// headers of their own; without one the access token is shown.
pub open spec fn headers_for(
    gateway: bool,
    gateway_api_key: Option<Seq<char>>,
    credentials: CredentialsView,
) -> Seq<(Seq<char>, Seq<char>)> {
    let shown = if gateway {
        or_empty(gateway_api_key)
    } else {
        or_empty(credentials.access_token)
    };
    let common = seq![
        ("Authorization"@, "Bearer "@ + shown),
        ("OpenAI-Beta"@, "responses=experimental"@),
        ("originator"@, "pi"@),
        ("accept"@, "text/event-stream"@),
        ("Content-Type"@, "application/json"@),
    ] + opt_header("chatgpt-account-id"@, credentials.account_id);
    if gateway {
        common + opt_header("x-openai-access-token"@, credentials.access_token) + opt_header(
            "x-openai-account-id"@,
            credentials.account_id,
        )
    } else {
        common
    }
}

/// What a list of headers holds.
pub open spec fn headers_of(v: Seq<(String, String)>) -> Seq<(Seq<char>, Seq<char>)> {
    v.map_values(|h: (String, String)| (h.0@, h.1@))
}

fn add_header(headers: &mut Vec<(String, String)>, name: &str, value: &str)
    ensures
        headers_of(final(headers)@) == headers_of(old(headers)@).push((name@, value@)),
{
    headers.push((name.to_owned(), value.to_owned()));
    assert(headers_of(headers@) =~= headers_of(old(headers)@).push((name@, value@)));
}

fn add_opt_header(headers: &mut Vec<(String, String)>, name: &str, value: &Option<String>)
    ensures
        headers_of(final(headers)@) == headers_of(old(headers)@) + opt_header(
            name@,
            opt_text(*value),
        ),
{
    if let Some(value) = value {
        add_header(headers, name, value.as_str());
    }
    assert(headers_of(headers@) =~= headers_of(old(headers)@) + opt_header(name@, opt_text(*value)));
}

/// The headers of a request, in order. A gateway is shown its key, and the
/// credentials in headers of their own; without one the access token is shown.
pub fn build_headers(
    gateway: bool,
    gateway_api_key: Option<&str>,
    credentials: &Credentials,
) -> (r: Vec<(String, String)>)
    ensures
        headers_of(r@) == headers_for(gateway, opt_str(gateway_api_key), credentials@),
{
    let empty = String::new();
    let shown = if gateway {
        match gateway_api_key {
            Some(key) => key,
            None => empty.as_str(),
        }
    } else {
        match &credentials.access_token {
            Some(token) => token.as_str(),
            None => empty.as_str(),
        }
    };
    assert(empty@ =~= Seq::<char>::empty());
    let mut headers: Vec<(String, String)> = Vec::new();
    let bearer = "Bearer ".to_owned().concat(shown);
    add_header(&mut headers, "Authorization", bearer.as_str());
    add_header(&mut headers, "OpenAI-Beta", "responses=experimental");
    add_header(&mut headers, "originator", "pi");
    add_header(&mut headers, "accept", "text/event-stream");
    add_header(&mut headers, "Content-Type", "application/json");
    assert(headers_of(headers@) =~= seq![
        ("Authorization"@, bearer@),
        ("OpenAI-Beta"@, "responses=experimental"@),
        ("originator"@, "pi"@),
        ("accept"@, "text/event-stream"@),
        ("Content-Type"@, "application/json"@),
    ]);
    add_opt_header(&mut headers, "chatgpt-account-id", &credentials.account_id);
    if gateway {
        add_opt_header(&mut headers, "x-openai-access-token", &credentials.access_token);
        add_opt_header(&mut headers, "x-openai-account-id", &credentials.account_id);
    }
    headers
}

/// Without a gateway, credentials are complete or refused; with one they are
/// never refused.
pub proof fn only_a_gateway_does_without_credentials(
    profile_account: Option<Seq<char>>,
    token: Option<Seq<char>>,
    token_account: Option<Seq<char>>,
)
    ensures
        credentials_for(false, profile_account, token, token_account) matches Ok(c)
            ==> c.access_token is Some && c.account_id is Some,
        credentials_for(true, profile_account, token, token_account) is Ok,
{
}

/// Without a gateway the key makes no difference to what is sent; with one the
/// access token is not what the request authorizes itself by.
pub proof fn keys_and_tokens_go_where_they_belong(
    a: Option<Seq<char>>,
    b: Option<Seq<char>>,
    key: Seq<char>,
    credentials: CredentialsView,
)
    ensures
        headers_for(false, a, credentials) == headers_for(false, b, credentials),
        headers_for(true, Some(key), credentials)[0] == ("Authorization"@, "Bearer "@ + key),
{
    assert(headers_for(true, Some(key), credentials)[0] == ("Authorization"@, "Bearer "@ + key));
}

} // verus!
