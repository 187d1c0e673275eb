//! What a provider is configured with.

use vstd::prelude::*;

verus! {

/// The options that a provider is made from.
#[derive(Debug)]
pub struct ProviderRuntimeOptions {
    /// The endpoint, or the base of it, that the configuration names.
    pub provider_api_url: Option<String>,
    /// The directory in which credentials are kept.
    pub zeroclaw_dir: Option<String>,
    /// Whether credentials are kept encrypted.
    pub secrets_encrypt: bool,
    /// The credentials profile to use in place of the active one.
    pub auth_profile_override: Option<String>,
    /// The reasoning effort that the configuration names.
    pub reasoning_effort: Option<String>,
}

impl Default for ProviderRuntimeOptions {
    /// Nothing is configured, and credentials are kept encrypted.
    fn default() -> (r: Self)
        ensures
            r.provider_api_url is None,
            r.zeroclaw_dir is None,
            r.secrets_encrypt,
            r.auth_profile_override is None,
            r.reasoning_effort is None,
    {
        ProviderRuntimeOptions {
            provider_api_url: None,
            zeroclaw_dir: None,
            secrets_encrypt: true,
            auth_profile_override: None,
            reasoning_effort: None,
        }
    }
}

/// The values of the environment variables that name an endpoint, where they are set.
#[derive(Debug)]
pub struct Environment {
    /// `ZEROCLAW_CODEX_RESPONSES_URL`
    pub responses_url: Option<String>,
    /// `ZEROCLAW_CODEX_BASE_URL`
    pub base_url: Option<String>,
}

impl Default for Environment {
    /// None of the variables is set.
    fn default() -> (r: Self)
        ensures
            r.responses_url is None,
            r.base_url is None,
    {
        Environment { responses_url: None, base_url: None }
    }
}

} // verus!
