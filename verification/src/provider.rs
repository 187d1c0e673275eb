//! The provider: where it sends requests, and what it puts into them.

use crate::auth::{build_headers, headers_for, headers_of, Credentials, CredentialsView};
use crate::endpoint::{
    canonical_of, choice_is_rewritable, is_default_responses_url,
    resolve_responses_url, resolved_endpoint, try_resolve_responses_url, EndpointError,
    DEFAULT_CODEX_RESPONSES_URL, MAX_URL_CHARS,
};
use crate::options::{Environment, ProviderRuntimeOptions};
use crate::request::{build_request, inputs, request_for, ResponsesInput, ResponsesRequest};
use crate::text::{opt_str, opt_text};
use vstd::prelude::*;
use vstd::string::*;

verus! {

/// What a provider can do.
#[derive(Debug, Clone, Copy, PartialEq, Eq, Structural)]
pub struct ProviderCapabilities {
    pub native_tool_calling: bool,
    pub vision: bool,
    pub prompt_caching: bool,
}

/// What every provider can do.
pub open spec fn known_capabilities() -> ProviderCapabilities {
    ProviderCapabilities { native_tool_calling: false, vision: true, prompt_caching: false }
}

/// A client of the responses endpoint.
#[derive(Debug)]
pub struct OpenAiCodexProvider {
    pub auth_profile_override: Option<String>,
    pub responses_url: String,
    /// Whether the endpoint is another than the default.
    pub custom_endpoint: bool,
    pub gateway_api_key: Option<String>,
    pub reasoning_effort: Option<String>,
}

/// Whether the endpoint that is named, where one is, can be read as a URL, and so can
/// the one that is made of it.
pub open spec fn is_usable(options: ProviderRuntimeOptions, environment: Environment) -> bool {
    &&& choice_is_rewritable(options, environment)
    &&& resolved_endpoint(options, environment) matches Ok(url) ==> url.len() <= MAX_URL_CHARS
}

/// Whether a result is the provider for the given options, or the refusal of the
/// endpoint that they and the environment name.
pub open spec fn is_made_from(
    r: Result<OpenAiCodexProvider, EndpointError>,
    options: ProviderRuntimeOptions,
    environment: Environment,
    gateway_api_key: Option<Seq<char>>,
) -> bool {
    match resolved_endpoint(options, environment) {
        Err(e) => r == Err::<OpenAiCodexProvider, EndpointError>(e),
        Ok(url) => {
            &&& r matches Ok(provider)
            &&& provider.wf()
            &&& provider.responses_url@ == url
            &&& opt_text(provider.auth_profile_override) == opt_text(options.auth_profile_override)
            &&& opt_text(provider.gateway_api_key) == gateway_api_key
            &&& opt_text(provider.reasoning_effort) == opt_text(options.reasoning_effort)
        },
    }
}

/// The text as it stands, if there is one.
fn copied(text: &Option<String>) -> (r: Option<String>)
    ensures
        opt_text(r) == opt_text(*text),
{
    match text {
        Some(text) => Some(text.as_str().to_owned()),
        None => None,
    }
}

/// The text, borrowed, if there is one.
fn borrowed<'a>(text: &'a Option<String>) -> (r: Option<&'a str>)
    ensures
        opt_str(r) == opt_text(*text),
{
    match text {
        Some(text) => Some(text.as_str()),
        None => None,
    }
}

impl OpenAiCodexProvider {
    /// What holds of every provider: it knows whether its endpoint is the default.
    pub open spec fn wf(self) -> bool {
        self.custom_endpoint <==> canonical_of(self.responses_url@) != canonical_of(
            DEFAULT_CODEX_RESPONSES_URL@,
        )
    }

    /// Whether requests go to a gateway that has a key of its own.
    pub open spec fn gateway(self) -> bool {
        self.custom_endpoint && self.gateway_api_key is Some
    }

    /// The provider for the given options. It fails exactly where the endpoint that
    /// they and the environment name is refused.
    pub fn new(
        options: &ProviderRuntimeOptions,
        environment: &Environment,
        gateway_api_key: Option<&str>,
    ) -> (r: Result<OpenAiCodexProvider, EndpointError>)
        requires
            is_usable(*options, *environment),
        ensures
            is_made_from(r, *options, *environment, opt_str(gateway_api_key)),
    {
        let responses_url = match resolve_responses_url(options, environment) {
            Ok(url) => url,
            Err(e) => return Err(e),
        };
        let custom_endpoint = !is_default_responses_url(responses_url.as_str());
        let gateway_api_key = match gateway_api_key {
            Some(key) => Some(key.to_owned()),
            None => None,
        };
        Ok(
            OpenAiCodexProvider {
                auth_profile_override: copied(&options.auth_profile_override),
                responses_url,
                custom_endpoint,
                gateway_api_key,
                reasoning_effort: copied(&options.reasoning_effort),
            },
        )
    }

    /// The provider for the given options; `None` where the endpoint that they and the
    /// environment name, or the one made of it, is too long to be read as a URL.
    pub fn try_new(
        options: &ProviderRuntimeOptions,
        environment: &Environment,
        gateway_api_key: Option<&str>,
    ) -> (r: Option<Result<OpenAiCodexProvider, EndpointError>>)
        ensures
            r is Some <==> is_usable(*options, *environment),
            r matches Some(made) ==> is_made_from(
                made,
                *options,
                *environment,
                opt_str(gateway_api_key),
            ),
    {
        match try_resolve_responses_url(options, environment) {
            None => return None,
            Some(Ok(url)) => if url.as_str().unicode_len() > MAX_URL_CHARS {
                return None;
            },
            Some(Err(_)) => {},
        }
        Some(OpenAiCodexProvider::new(options, environment, gateway_api_key))
    }

    /// What the provider can do.
    pub fn capabilities(&self) -> (r: ProviderCapabilities)
        ensures
            r == known_capabilities(),
    {
        ProviderCapabilities { native_tool_calling: false, vision: true, prompt_caching: false }
    }

    /// Whether answers can be followed as they come.
    pub fn supports_streaming(&self) -> (r: bool)
        ensures
            r,
    {
        true
    }

    /// Whether requests go to a gateway that has a key of its own.
    pub fn uses_gateway_api_key(&self) -> (r: bool)
        ensures
            r == self.gateway(),
    {
        self.custom_endpoint && self.gateway_api_key.is_some()
    }

    /// The headers of a request.
    pub fn headers(&self, credentials: &Credentials) -> (r: Vec<(String, String)>)
        ensures
            headers_of(r@) == headers_for(
                self.gateway(),
                opt_text(self.gateway_api_key),
                credentials@,
            ),
    {
        build_headers(self.uses_gateway_api_key(), borrowed(&self.gateway_api_key), credentials)
    }

    /// The request for a model to go on from a conversation; `environment` is the
    /// effort that the environment names.
    pub fn request(
        &self,
        model: &str,
        input: Vec<ResponsesInput>,
        instructions: String,
        environment: Option<&str>,
    ) -> (r: ResponsesRequest)
        ensures
            r@ == request_for(
                model@,
                inputs(input@),
                instructions@,
                opt_text(self.reasoning_effort),
                opt_str(environment),
            ),
    {
        build_request(model, input, instructions, borrowed(&self.reasoning_effort), environment)
    }
}

/// A provider of the default endpoint never sends its gateway's key: what it sends
/// is what it would send with any other, or with none.
pub proof fn the_default_endpoint_sees_no_key(
    provider: OpenAiCodexProvider,
    other: Option<Seq<char>>,
    credentials: CredentialsView,
)
    requires
        provider.wf(),
        canonical_of(provider.responses_url@) == canonical_of(DEFAULT_CODEX_RESPONSES_URL@),
    ensures
        headers_for(provider.gateway(), opt_text(provider.gateway_api_key), credentials)
            == headers_for(provider.gateway(), other, credentials),
{
}

} // verus!
