//! Where requests go.

use crate::endpoint::{
    canonical, canonical_of, chosen_text, endpoint_from, endpoint_of, endpoint_path, planned_path,
    reads_as, resolved_endpoint, responses_path, rewritable, url_of, web_scheme, EndpointError, UrlView,
};
use crate::laws::text::{all_white, trailing_characters_go};
use crate::options::{Environment, ProviderRuntimeOptions};
use crate::provider::{is_made_from, OpenAiCodexProvider};
use crate::text::{
    blank_is_all_white, ends, lowered, nonblank, opt_text, trimmed, trimming_is_idempotent, without_trailing,
};
use vstd::prelude::*;

verus! {

/// Whether a text is given, and not blank.
pub open spec fn is_given(text: Option<String>) -> bool {
    text matches Some(s) && !all_white(s@)
}

/// Wherever the environment names an endpoint, requests go to the one that this text
/// stands for, whatever else is named.
pub proof fn the_environments_endpoint_comes_first(
    options: ProviderRuntimeOptions,
    environment: Environment,
)
    requires
        is_given(environment.responses_url),
    ensures
        resolved_endpoint(options, environment) == endpoint_of(
            environment.responses_url.unwrap()@,
        ),
        chosen_text(options, environment) == Some(trimmed(environment.responses_url.unwrap()@)),
{
    lemma_given(environment.responses_url);
}

/// Where it names none but a base, they go to the endpoint that the base stands for,
/// whatever is configured.
pub proof fn the_environments_base_comes_next(
    options: ProviderRuntimeOptions,
    environment: Environment,
)
    requires
        !is_given(environment.responses_url),
        is_given(environment.base_url),
    ensures
        resolved_endpoint(options, environment) == endpoint_of(environment.base_url.unwrap()@),
        chosen_text(options, environment) == Some(trimmed(environment.base_url.unwrap()@)),
{
    lemma_given(environment.responses_url);
    lemma_given(environment.base_url);
}

/// Where the environment names neither, they go to the endpoint that is configured; and
/// where none is, to the default one.
pub proof fn the_configured_endpoint_comes_last(
    options: ProviderRuntimeOptions,
    environment: Environment,
)
    requires
        !is_given(environment.responses_url),
        !is_given(environment.base_url),
    ensures
        is_given(options.provider_api_url) ==> resolved_endpoint(options, environment)
            == endpoint_of(options.provider_api_url.unwrap()@),
        is_given(options.provider_api_url) ==> chosen_text(options, environment) == Some(
            trimmed(options.provider_api_url.unwrap()@),
        ),
        !is_given(options.provider_api_url) ==> resolved_endpoint(options, environment) == Ok::<
            Seq<char>,
            EndpointError,
        >("https://chatgpt.com/backend-api/codex/responses"@),
        !is_given(options.provider_api_url) ==> chosen_text(options, environment) is None,
{
    lemma_given(environment.responses_url);
    lemma_given(environment.base_url);
    lemma_given(options.provider_api_url);
}

/// What stands behind a text that was chosen makes no difference: options and
/// environments that agree on it lead to the same endpoint.
pub proof fn lesser_choices_make_no_difference(
    options: ProviderRuntimeOptions,
    other: ProviderRuntimeOptions,
    environment: Environment,
    changed: Environment,
)
    requires
        is_given(environment.responses_url),
        environment.responses_url == changed.responses_url,
    ensures
        resolved_endpoint(options, environment) == resolved_endpoint(other, changed),
{
    lemma_given(environment.responses_url);
}

proof fn lemma_given(text: Option<String>)
    ensures
        is_given(text) <==> nonblank(opt_text(text)) is Some,
        is_given(text) ==> nonblank(opt_text(text)) == Some(
            trimmed(text.unwrap()@),
        ) && endpoint_of(trimmed(text.unwrap()@)) == endpoint_of(text.unwrap()@),
{
    if let Some(s) = text {
        blank_is_all_white(s@);
        trimming_is_idempotent(s@);
    }
}

/// A path gets `/responses` behind it, in place of the slashes at its end, unless it
/// names the responses already: it stays as it is then.
pub proof fn paths_get_the_responses_once(stem: Seq<char>, n: nat)
    requires
        stem.len() > 0 ==> stem.last() != '/',
    ensures
        ({
            let path = stem + Seq::new(n, |i: int| '/');
            &&& ends(stem, "/responses"@) ==> endpoint_path(path) == path && responses_path(path)
                is None
            &&& !ends(stem, "/responses"@) ==> endpoint_path(path) == stem + "/responses"@
                && responses_path(path) == Some(stem + "/responses"@)
        }),
{
    trailing_characters_go(stem, '/', n);
}

/// An endpoint is the URL up to its path, as it is, and behind it the path that names the
/// responses: the query and the fragment are gone, and nothing else is.
pub proof fn endpoints_keep_what_stands_before_the_path(
    base: Seq<char>,
    stem: Seq<char>,
    query: Seq<char>,
    url: UrlView,
)
    requires
        url.scheme == "http"@ || url.scheme == "https"@,
        url.path == stem,
        stem.len() > 0 ==> stem.last() != '/',
        !ends(stem, "/responses"@),
        url.query == Some(query),
        url.fragment is None,
        url.written == base + stem + (seq!['?'] + query),
    ensures
        endpoint_from(url) == Ok::<Seq<char>, EndpointError>(base + stem + "/responses"@),
        planned_path(url) == Ok::<Option<Seq<char>>, EndpointError>(Some(stem + "/responses"@)),
{
    paths_get_the_responses_once(stem, 0);
    assert(stem + Seq::new(0, |i: int| '/') =~= stem);
    assert(url.behind_path() =~= seq!['?'] + query);
    assert(url.base() =~= base);
    assert(base + (stem + "/responses"@) =~= base + stem + "/responses"@);
}

/// What a URL is written out as, apart from its path and what stands behind it, is what
/// stands before the path; putting another path there drops the query and the fragment,
/// and leaves the scheme, the host and the port.
pub proof fn another_path_leaves_the_rest(url: UrlView, base: Seq<char>, path: Seq<char>)
    requires
        url.laid_out(),
        url.written == base + url.path + url.behind_path(),
    ensures
        url.base() == base,
        url.with_path(path).written == base + path,
        url.with_path(path).path == path,
        url.with_path(path).query is None,
        url.with_path(path).fragment is None,
        url.with_path(path).scheme == url.scheme,
        url.with_path(path).host == url.host,
        url.with_path(path).port == url.port,
        url.behind_path() == (match url.query {
            Some(q) => seq!['?'] + q,
            None => Seq::empty(),
        }) + (match url.fragment {
            Some(f) => seq!['#'] + f,
            None => Seq::empty(),
        }),
{
    assert(url.base() =~= base);
}

/// An endpoint is refused exactly where it is blank, no URL, or neither `http` nor
/// `https`, each for its own reason.
pub proof fn endpoints_are_refused_for_a_reason(text: Seq<char>)
    ensures
        all_white(text) <==> endpoint_of(text) == Err::<Seq<char>, EndpointError>(
            EndpointError::Empty,
        ),
        !all_white(text) && url_of(trimmed(text)) is None <==> endpoint_of(text) == Err::<
            Seq<char>,
            EndpointError,
        >(EndpointError::InvalidUrl),
        !all_white(text) && (url_of(trimmed(text)) matches Some(url) && url.scheme != "http"@
            && url.scheme != "https"@) <==> endpoint_of(text) == Err::<Seq<char>, EndpointError>(
            EndpointError::UnsupportedScheme,
        ),
        !all_white(text) && (url_of(trimmed(text)) matches Some(url) && (url.scheme == "http"@
            || url.scheme == "https"@)) <==> endpoint_of(text) is Ok,
        web_scheme("http"@) && web_scheme("https"@),
{
    blank_is_all_white(text);
}

/// Every text of an ordinary length can be read as a URL, and white space around it does
/// not count.
pub proof fn ordinary_endpoints_can_be_read(text: Seq<char>)
    ensures
        text.len() <= 0x3ff_ffff ==> rewritable(text),
        trimmed(text).len() <= 0x3ff_ffff ==> rewritable(text),
{
}

/// A URL of another scheme gets no path.
pub proof fn other_schemes_get_no_path(url: UrlView)
    requires
        url.scheme != "http"@,
        url.scheme != "https"@,
    ensures
        planned_path(url) == Err::<Option<Seq<char>>, EndpointError>(
            EndpointError::UnsupportedScheme,
        ),
        endpoint_from(url) == Err::<Seq<char>, EndpointError>(EndpointError::UnsupportedScheme),
{
}

/// Two URLs are the same endpoint exactly if their schemes and hosts are, letter case
/// aside, and their ports, and their paths, slashes at the end aside.
pub proof fn endpoints_are_told_apart(a: UrlView, b: UrlView)
    requires
        a.host is Some && a.port is Some,
        b.host is Some && b.port is Some,
    ensures
        canonical(a) == canonical(b) <==> {
            &&& lowered(a.scheme) == lowered(b.scheme)
            &&& lowered(a.host.unwrap()) == lowered(b.host.unwrap())
            &&& a.port == b.port
            &&& without_trailing(a.path, '/') == without_trailing(b.path, '/')
        },
        canonical(a) is Some,
{
}

/// What has no host or no port, or is no URL, is no endpoint.
pub proof fn what_has_no_host_is_no_endpoint(url: UrlView, text: Seq<char>)
    ensures
        url.host is None || url.port is None ==> canonical(url) is None,
        url_of(text) is None ==> canonical_of(text) is None,
        url_of(text) matches Some(read) ==> canonical_of(text) == canonical(read),
{
}

/// What an endpoint reads as is settled where it can be read at all.
pub proof fn endpoints_read_one_way(text: Seq<char>, a: UrlView, b: UrlView)
    requires
        reads_as(text, a),
        reads_as(text, b),
        a.host matches Some(host) && host.len() <= 2000,
    ensures
        a == b,
        url_of(text) == Some(a),
{
}

/// A provider keeps what it was made from: the endpoint, the key, the profile and the
/// effort; its endpoint is the default one exactly if both read as the same.
pub proof fn providers_keep_what_they_are_made_from(
    provider: OpenAiCodexProvider,
    options: ProviderRuntimeOptions,
    environment: Environment,
    key: Option<Seq<char>>,
    error: EndpointError,
)
    ensures
        is_made_from(Ok(provider), options, environment, key) ==> {
            &&& resolved_endpoint(options, environment) == Ok::<Seq<char>, EndpointError>(
                provider.responses_url@,
            )
            &&& key == (match provider.gateway_api_key {
                Some(k) => Some(k@),
                None => None,
            })
            &&& opt_text(provider.auth_profile_override) == opt_text(options.auth_profile_override)
            &&& opt_text(provider.reasoning_effort) == opt_text(options.reasoning_effort)
            &&& provider.custom_endpoint <==> canonical_of(provider.responses_url@) != canonical_of(
                "https://chatgpt.com/backend-api/codex/responses"@,
            )
            &&& provider.gateway() <==> provider.custom_endpoint && key is Some
        },
        is_made_from(Err(error), options, environment, key) ==> resolved_endpoint(
            options,
            environment,
        ) == Err::<Seq<char>, EndpointError>(error),
{
}

} // verus!
