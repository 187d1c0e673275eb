//! The endpoint that requests are sent to.

use crate::options::{Environment, ProviderRuntimeOptions};
use crate::text::{
    begins, ends, ends_with, first_nonempty, lowered, nonblank, opt_text, same_text, trim,
    trim_trailing, trimmed, trimmed_already, trimming_makes_nothing_longer, without_trailing,
};
use vstd::prelude::*;
use vstd::string::*;

verus! {

/// The endpoint that is used where none is configured.
pub const DEFAULT_CODEX_RESPONSES_URL: &'static str = "https://chatgpt.com/backend-api/codex/responses";

/// The length in characters up to which a text can be read as a URL: a parsed URL
/// counts its bytes in 32 bits. A character of the host takes at most 64 bytes where
/// it is encoded, and one of any other part 12.
pub const MAX_URL_CHARS: usize = 0x3ff_ffff;

/// Why an endpoint is refused.
#[derive(Debug, Clone, Copy, PartialEq, Eq, Structural)]
pub enum EndpointError {
    /// The endpoint is blank.
    Empty,
    /// The endpoint is no URL.
    InvalidUrl,
    /// The URL's scheme is not `http` or `https`.
    UnsupportedScheme,
}

impl EndpointError {
    /// What a user reads of the refusal.
    pub open spec fn text(self) -> Seq<char> {
        match self {
            EndpointError::Empty => "OpenAI Codex endpoint override cannot be empty"@,
            EndpointError::InvalidUrl => "OpenAI Codex endpoint override must be a valid URL"@,
            EndpointError::UnsupportedScheme => "OpenAI Codex endpoint override must use http:// or https://"@,
        }
    }

    /// What a user reads of the refusal.
    pub fn message(&self) -> (r: String)
        ensures
            r@ == self.text(),
    {
        match self {
            EndpointError::Empty => "OpenAI Codex endpoint override cannot be empty".to_owned(),
            EndpointError::InvalidUrl => {
                "OpenAI Codex endpoint override must be a valid URL".to_owned()
            },
            EndpointError::UnsupportedScheme => {
                "OpenAI Codex endpoint override must use http:// or https://".to_owned()
            },
        }
    }
}

/// What is read of a URL.
#[derive(Debug)]
pub struct UrlParts {
    pub scheme: String,
    pub host: Option<String>,
    /// The port, or the scheme's own where the URL names none.
    pub port: Option<u16>,
    pub path: String,
    pub query: Option<String>,
    pub fragment: Option<String>,
    /// The URL as it is written out.
    pub written: String,
}

/// The model of [`UrlParts`].
pub struct UrlView {
    pub scheme: Seq<char>,
    pub host: Option<Seq<char>>,
    pub port: Option<u16>,
    pub path: Seq<char>,
    pub query: Option<Seq<char>>,
    pub fragment: Option<Seq<char>>,
    pub written: Seq<char>,
}

impl View for UrlParts {
    type V = UrlView;

    open spec fn view(&self) -> UrlView {
        UrlView {
            scheme: self.scheme@,
            host: opt_text(self.host),
            port: self.port,
            path: self.path@,
            query: opt_text(self.query),
            fragment: opt_text(self.fragment),
            written: self.written@,
        }
    }
}

/// The schemes that an endpoint may have.
pub open spec fn web_scheme(scheme: Seq<char>) -> bool {
    scheme == "http"@ || scheme == "https"@
}

/// A part of a URL behind the mark that leads it in; nothing where it is not there.
pub open spec fn led_in(mark: char, part: Option<Seq<char>>) -> Seq<char> {
    match part {
        Some(p) => seq![mark] + p,
        None => Seq::empty(),
    }
}

impl UrlView {
    /// What stands behind the path.
    pub open spec fn behind_path(self) -> Seq<char> {
        led_in('?', self.query) + led_in('#', self.fragment)
    }

    /// What stands before the path: the scheme, the host and the port among it.
    pub open spec fn base(self) -> Seq<char> {
        self.written.take(self.written.len() - self.path.len() - self.behind_path().len())
    }

    /// Whether the URL is written out as what stands before the path, the path,
    /// and what stands behind it.
    pub open spec fn laid_out(self) -> bool {
        &&& self.path.len() + self.behind_path().len() <= self.written.len()
        &&& self.written == self.base() + self.path + self.behind_path()
    }

    /// The URL with another path, and without query and fragment.
    pub open spec fn with_path(self, path: Seq<char>) -> UrlView {
        UrlView { path, query: None, fragment: None, written: self.base() + path, ..self }
    }
}

/// Whether a path is another without the slashes at its end, and with a segment of
/// small letters behind it.
pub open spec fn adds_segment(old_path: Seq<char>, path: Seq<char>) -> bool {
    let stem = without_trailing(old_path, '/');
    let segment = path.skip(stem.len() as int);
    &&& begins(path, stem)
    &&& segment.len() > 0 && segment[0] == '/'
    &&& forall|i: int| 1 <= i < segment.len() ==> 'a' <= #[trigger] segment[i] <= 'z'
}

/// The length in characters up to which every host that was written out is read
/// again. (A label is decoded up to this length, and can be encoded longer.)
pub const REREADABLE_HOST_CHARS: usize = 2000;

/// Whether a host that was written out is read again.
pub open spec fn rereadable_host(url: UrlView) -> bool {
    url.host matches Some(host) && host.len() <= REREADABLE_HOST_CHARS
}

/// Whether a text is a URL that holds what `url` does, if it is a URL at all; it
/// is one unless the host is overlong.
pub open spec fn reads_as(text: Seq<char>, url: UrlView) -> bool {
    &&& url_of(text) matches Some(read) ==> read == url
    &&& rereadable_host(url) ==> url_of(text) is Some
}

/// What an optional URL holds.
pub open spec fn opt_url(o: Option<UrlParts>) -> Option<UrlView> {
    match o {
        Some(u) => Some(u@),
        None => None,
    }
}

/// What `reqwest::Url::parse` reads from a text, if that is a URL.
pub uninterp spec fn url_of(text: Seq<char>) -> Option<UrlView>;

/// `reqwest::Url::parse`, and what the parsed URL answers for its scheme, host,
/// port, path, query and fragment, and written out. All of it depends on the text
/// alone. A URL is written out with its scheme and a colon at the beginning, and
/// with its path, its query and its fragment, in this order, at the end. The URL's
/// positions are counted in 32 bits, which those of a text of this length fit.
#[verifier::external_body]
fn parse_url(text: &str) -> (r: Option<UrlParts>)
    requires
        text@.len() <= MAX_URL_CHARS,
    ensures
        opt_url(r) == url_of(text@),
        r matches Some(url) ==> url@.laid_out(),
        r matches Some(url) ==> begins(url@.written, url@.scheme + ":"@),
{
    match reqwest::Url::parse(text) {
        Ok(url) => Some(UrlParts {
            scheme: url.scheme().to_string(),
            host: url.host_str().map(str::to_string),
            port: url.port_or_known_default(),
            path: url.path().to_string(),
            query: url.query().map(str::to_string),
            fragment: url.fragment().map(str::to_string),
            written: url.to_string(),
        }),
        Err(_) => None,
    }
}

/// `reqwest::Url::parse`, then `set_query(None)` and `set_fragment(None)`, and the
/// URL written out. Of an `http` or `https` URL it leaves what stands up to the end
/// of the path as it is, and drops the query and the fragment. What it writes out
/// reads as the same scheme, host, port and path again.
#[verifier::external_body]
fn strip_query(text: &str) -> (r: Option<String>)
    requires
        text@.len() <= MAX_URL_CHARS,
        url_of(text@) matches Some(url) && web_scheme(url.scheme),
    ensures
        opt_text(r) == Some(url_of(text@).unwrap().base() + url_of(text@).unwrap().path),
        r matches Some(written) ==> reads_as(
            written@,
            url_of(text@).unwrap().with_path(url_of(text@).unwrap().path),
        ),
{
    match reqwest::Url::parse(text) {
        Ok(mut url) => {
            url.set_query(None);
            url.set_fragment(None);
            Some(url.to_string())
        },
        Err(_) => None,
    }
}

/// `reqwest::Url::parse`, then `set_path`, `set_query(None)` and
/// `set_fragment(None)`, and the URL written out. Of an `http` or `https` URL it
/// leaves what stands before the path as it is. The new path takes the place of
/// the old one, and nothing in it is encoded: the URL's own path is already, and
/// letters stay as they are. The query and the fragment are dropped. What it
/// writes out reads as the same scheme, host and port again, with the new path.
/// `set_path` panics where a position in the URL outgrows 32 bits, which a segment
/// this short does not lead to.
#[verifier::external_body]
fn replace_path(text: &str, path: &str) -> (r: Option<String>)
    requires
        text@.len() <= MAX_URL_CHARS,
        url_of(text@) matches Some(url) && web_scheme(url.scheme) && adds_segment(url.path, path@)
            && path@.len() <= url.path.len() + 16,
    ensures
        opt_text(r) == Some(url_of(text@).unwrap().base() + path@),
        r matches Some(written) ==> reads_as(
            written@,
            url_of(text@).unwrap().with_path(path@),
        ),
{
    match reqwest::Url::parse(text) {
        Ok(mut url) => {
            url.set_path(path);
            url.set_query(None);
            url.set_fragment(None);
            Some(url.to_string())
        },
        Err(_) => None,
    }
}

/// The path that an endpoint gets, where its own does not name the responses
/// already; slashes at the end do not count.
pub open spec fn responses_path(path: Seq<char>) -> Option<Seq<char>> {
    let stem = without_trailing(path, '/');
    if ends(stem, "/responses"@) {
        None
    } else {
        Some(stem + "/responses"@)
    }
}

/// What is to be done to a URL's path to make the URL an endpoint.
pub open spec fn planned_path(url: UrlView) -> Result<Option<Seq<char>>, EndpointError> {
    if web_scheme(url.scheme) {
        Ok(responses_path(url.path))
    } else {
        Err(EndpointError::UnsupportedScheme)
    }
}

/// The path of an endpoint: the URL's own, or the one that it gets.
pub open spec fn endpoint_path(path: Seq<char>) -> Seq<char> {
    match responses_path(path) {
        Some(made) => made,
        None => path,
    }
}

/// The endpoint that a URL stands for: the URL with a path that names the
/// responses, and without query and fragment.
pub open spec fn endpoint_from(url: UrlView) -> Result<Seq<char>, EndpointError> {
    if web_scheme(url.scheme) {
        Ok(url.base() + endpoint_path(url.path))
    } else {
        Err(EndpointError::UnsupportedScheme)
    }
}

/// The endpoint that a text stands for.
pub open spec fn endpoint_of(text: Seq<char>) -> Result<Seq<char>, EndpointError> {
    let candidate = trimmed(text);
    if candidate.len() == 0 {
        Err(EndpointError::Empty)
    } else {
        match url_of(candidate) {
            None => Err(EndpointError::InvalidUrl),
            Some(url) => endpoint_from(url),
        }
    }
}

/// Whether an endpoint reads as the URL in a text does, with its scheme, host and
/// port, but for the path of the endpoint, and without query and fragment.
pub open spec fn reads_as_endpoint_of(endpoint: Seq<char>, text: Seq<char>) -> bool {
    url_of(trimmed(text)) matches Some(url) && reads_as(
        endpoint,
        url.with_path(endpoint_path(url.path)),
    )
}

/// Whether an endpoint stands for itself: what is made of it is the same again. An
/// overlong host is left out, since it may not be read again.
pub open spec fn stands_for_itself(endpoint: Seq<char>, text: Seq<char>) -> bool {
    url_of(trimmed(text)) matches Some(url) ==> rereadable_host(url) ==> endpoint_of(endpoint)
        == Ok::<Seq<char>, EndpointError>(endpoint)
}

/// Whether a text, without the white space around it, can be read as a URL.
pub open spec fn rewritable(text: Seq<char>) -> bool {
    text.len() <= MAX_URL_CHARS || trimmed(text).len() <= MAX_URL_CHARS
}

/// The result of an endpoint's construction.
pub open spec fn endpoint_result(r: Result<String, EndpointError>) -> Result<
    Seq<char>,
    EndpointError,
> {
    match r {
        Ok(s) => Ok(s@),
        Err(e) => Err(e),
    }
}

/// What is to be done to a URL's path to make the URL an endpoint: nothing, or
/// to replace it.
pub fn plan_path(url: &UrlParts) -> (r: Result<Option<String>, EndpointError>)
    ensures
        (match r {
            Ok(path) => Ok(opt_text(path)),
            Err(e) => Err(e),
        }) == planned_path(url@),
{
    if !same_text(url.scheme.as_str(), "http") && !same_text(url.scheme.as_str(), "https") {
        return Err(EndpointError::UnsupportedScheme);
    }
    let stem = trim_trailing(url.path.as_str(), '/');
    if ends_with(stem, "/responses") {
        return Ok(None);
    }
    Ok(Some(stem.to_owned().concat("/responses")))
}

proof fn lemma_responses_is_a_segment(old_path: Seq<char>)
    ensures
        adds_segment(old_path, without_trailing(old_path, '/') + "/responses"@),
        (without_trailing(old_path, '/') + "/responses"@).len() <= old_path.len() + 16,
{
    let stem = without_trailing(old_path, '/');
    let path = stem + "/responses"@;
    reveal_strlit("/responses");
    assert(path.take(stem.len() as int) =~= stem);
    assert(path.skip(stem.len() as int) =~= "/responses"@);
    lemma_without_trailing_fits(old_path, '/');
}

proof fn lemma_without_trailing_fits(s: Seq<char>, c: char)
    ensures
        without_trailing(s, c).len() <= s.len(),
        s.len() > 0 ==> s.last() == c || without_trailing(s, c) == s,
    decreases s.len(),
{
    if s.len() > 0 && s.last() == c {
        lemma_without_trailing_fits(s.drop_last(), c);
    }
}

proof fn lemma_without_trailing_begins(s: Seq<char>, c: char)
    ensures
        begins(s, without_trailing(s, c)),
    decreases s.len(),
{
    if s.len() > 0 && s.last() == c {
        lemma_without_trailing_begins(s.drop_last(), c);
        let t = without_trailing(s, c);
        assert(s.take(t.len() as int) =~= s.drop_last().take(t.len() as int));
    } else {
        assert(s.take(s.len() as int) =~= s);
    }
}

/// What is made of a URL reads as an endpoint that stands for itself.
proof fn lemma_stands_for_itself(text: Seq<char>, url: UrlView, endpoint: Seq<char>)
    requires
        url_of(trimmed(text)) == Some(url),
        web_scheme(url.scheme),
        url.laid_out(),
        begins(url.written, url.scheme + ":"@),
        endpoint == url.base() + endpoint_path(url.path),
        reads_as(endpoint, url.with_path(endpoint_path(url.path))),
    ensures
        stands_for_itself(endpoint, text),
{
    let path = endpoint_path(url.path);
    let stem = without_trailing(url.path, '/');
    reveal_strlit("http");
    reveal_strlit("https");
    reveal_strlit("/responses");
    assert(url.scheme[0] == 'h');
    assert(url.written.take((url.scheme + ":"@).len() as int)[0] == 'h');
    lemma_without_trailing_fits(url.path, '/');
    lemma_without_trailing_begins(url.path, '/');
    assert(path.last() == 's' || path.last() == '/') by {
        if responses_path(url.path) is None {
            assert(stem.skip(stem.len() - 10)[9] == 's');
            assert(url.path.last() == '/' || url.path == stem);
        }
    }
    assert(endpoint[0] == 'h' || endpoint[0] == '/') by {
        if url.base().len() == 0 && stem.len() > 0 {
            assert(url.path.take(stem.len() as int)[0] == url.path[0]);
            assert(url.written[0] == url.path[0]);
        }
    }
    assert(endpoint.last() == path.last());
    trimmed_already(endpoint);
    endpoints_are_final(url);
}

/// The endpoint that a text stands for: its URL, with a path that names the
/// responses, and without query and fragment.
pub fn build_responses_url(base_or_endpoint: &str) -> (r: Result<String, EndpointError>)
    requires
        rewritable(base_or_endpoint@),
    ensures
        endpoint_result(r) == endpoint_of(base_or_endpoint@),
        r matches Ok(endpoint) ==> reads_as_endpoint_of(endpoint@, base_or_endpoint@),
        r matches Ok(endpoint) ==> stands_for_itself(endpoint@, base_or_endpoint@),
{
    let candidate = trim(base_or_endpoint);
    proof {
        trimming_makes_nothing_longer(base_or_endpoint@);
    }
    if candidate.is_empty() {
        return Err(EndpointError::Empty);
    }
    let url = match parse_url(candidate) {
        Some(url) => url,
        None => return Err(EndpointError::InvalidUrl),
    };
    proof {
        lemma_responses_is_a_segment(url.path@);
    }
    let built = match plan_path(&url) {
        Err(e) => return Err(e),
        Ok(None) => strip_query(candidate),
        Ok(Some(path)) => replace_path(candidate, path.as_str()),
    };
    match built {
        Some(text) => {
            proof {
                lemma_stands_for_itself(base_or_endpoint@, url@, text@);
            }
            Ok(text)
        },
        None => Err(EndpointError::InvalidUrl),
    }
}

/// Whether a text, without the white space around it, can be read as a URL.
pub fn is_rewritable(text: &str) -> (r: bool)
    ensures
        r == rewritable(text@),
{
    proof {
        trimming_makes_nothing_longer(text@);
    }
    trim(text).unicode_len() <= MAX_URL_CHARS
}

/// The endpoint that a text stands for; `None` where the text is too long to be read
/// as a URL.
pub fn try_build_responses_url(base_or_endpoint: &str) -> (r: Option<
    Result<String, EndpointError>,
>)
    ensures
        r is Some <==> rewritable(base_or_endpoint@),
        r matches Some(built) ==> endpoint_result(built) == endpoint_of(base_or_endpoint@),
        r matches Some(Ok(endpoint)) ==> reads_as_endpoint_of(endpoint@, base_or_endpoint@),
        r matches Some(Ok(endpoint)) ==> stands_for_itself(endpoint@, base_or_endpoint@),
{
    if is_rewritable(base_or_endpoint) {
        Some(build_responses_url(base_or_endpoint))
    } else {
        None
    }
}

/// The text that names the endpoint: the first that is given of the environment's
/// endpoint, its base, and the one that is configured.
pub open spec fn chosen_text(options: ProviderRuntimeOptions, environment: Environment) -> Option<
    Seq<char>,
> {
    match nonblank(opt_text(environment.responses_url)) {
        Some(endpoint) => Some(endpoint),
        None => match nonblank(opt_text(environment.base_url)) {
            Some(base) => Some(base),
            None => nonblank(opt_text(options.provider_api_url)),
        },
    }
}

/// The endpoint that requests go to: the one that is named, or the default where
/// none is.
pub open spec fn resolved_endpoint(
    options: ProviderRuntimeOptions,
    environment: Environment,
) -> Result<Seq<char>, EndpointError> {
    match chosen_text(options, environment) {
        Some(text) => endpoint_of(text),
        None => Ok(DEFAULT_CODEX_RESPONSES_URL@),
    }
}

/// Whether the text that names the endpoint, where one does, can be read as a URL.
pub open spec fn choice_is_rewritable(
    options: ProviderRuntimeOptions,
    environment: Environment,
) -> bool {
    chosen_text(options, environment) matches Some(text) ==> rewritable(text)
}

fn given(text: &Option<String>) -> (r: Option<String>)
    ensures
        opt_text(r) == nonblank(opt_text(*text)),
{
    match text {
        Some(text) => first_nonempty(Some(text.as_str())),
        None => None,
    }
}

/// The text that names the endpoint: the first that is given of the environment's
/// endpoint, its base, and the one that is configured.
pub fn choose_text(options: &ProviderRuntimeOptions, environment: &Environment) -> (r: Option<
    String,
>)
    ensures
        opt_text(r) == chosen_text(*options, *environment),
{
    let endpoint = given(&environment.responses_url);
    if endpoint.is_some() {
        return endpoint;
    }
    let base = given(&environment.base_url);
    if base.is_some() {
        return base;
    }
    given(&options.provider_api_url)
}

/// The endpoint that requests go to: the one that is named, or the default where
/// none is.
pub fn resolve_responses_url(options: &ProviderRuntimeOptions, environment: &Environment) -> (r:
    Result<String, EndpointError>)
    requires
        choice_is_rewritable(*options, *environment),
    ensures
        endpoint_result(r) == resolved_endpoint(*options, *environment),
{
    match choose_text(options, environment) {
        Some(text) => build_responses_url(text.as_str()),
        None => Ok(DEFAULT_CODEX_RESPONSES_URL.to_owned()),
    }
}

/// Whether the text that names the endpoint, where one does, can be read as a URL.
pub fn choice_can_be_rewritten(options: &ProviderRuntimeOptions, environment: &Environment) -> (r:
    bool)
    ensures
        r == choice_is_rewritable(*options, *environment),
{
    match choose_text(options, environment) {
        Some(text) => is_rewritable(text.as_str()),
        None => true,
    }
}

/// The endpoint that requests go to; `None` where the text that names it is too long
/// to be read as a URL.
pub fn try_resolve_responses_url(options: &ProviderRuntimeOptions, environment: &Environment) -> (r:
    Option<Result<String, EndpointError>>)
    ensures
        r is Some <==> choice_is_rewritable(*options, *environment),
        r matches Some(resolved) ==> endpoint_result(resolved) == resolved_endpoint(
            *options,
            *environment,
        ),
{
    if choice_can_be_rewritten(options, environment) {
        Some(resolve_responses_url(options, environment))
    } else {
        None
    }
}

/// By what an endpoint is told from another: its scheme, host, port and path.
pub struct EndpointView {
    pub scheme: Seq<char>,
    pub host: Seq<char>,
    pub port: u16,
    pub path: Seq<char>,
}

/// By what a URL is told from another, if it has a host and a port: upper case in
/// the scheme and the host does not count, nor do slashes at the path's end.
pub open spec fn canonical(url: UrlView) -> Option<EndpointView> {
    match (url.host, url.port) {
        (Some(host), Some(port)) => Some(
            EndpointView {
                scheme: lowered(url.scheme),
                host: lowered(host),
                port,
                path: without_trailing(url.path, '/'),
            },
        ),
        _ => None,
    }
}

/// By what the URL in a text is told from another.
pub open spec fn canonical_of(text: Seq<char>) -> Option<EndpointView> {
    match url_of(text) {
        Some(url) => canonical(url),
        None => None,
    }
}

/// What a canonical endpoint holds.
pub open spec fn endpoint_view(e: Option<(String, String, u16, String)>) -> Option<EndpointView> {
    match e {
        Some((scheme, host, port, path)) => Some(
            EndpointView { scheme: scheme@, host: host@, port, path: path@ },
        ),
        None => None,
    }
}

/// By what a URL is told from another, if it has a host and a port.
pub fn canonical_parts(url: &UrlParts) -> (r: Option<(String, String, u16, String)>)
    ensures
        endpoint_view(r) == canonical(url@),
{
    let host = match &url.host {
        Some(host) => host.as_str().to_ascii_lowercase(),
        None => return None,
    };
    let port: u16 = match url.port {
        Some(port) => port,
        None => return None,
    };
    let path = trim_trailing(url.path.as_str(), '/').to_owned();
    Some((url.scheme.as_str().to_ascii_lowercase(), host, port, path))
}

/// By what the URL in a text is told from another.
pub fn canonical_endpoint(url: &str) -> (r: Option<(String, String, u16, String)>)
    requires
        url@.len() <= MAX_URL_CHARS,
    ensures
        endpoint_view(r) == canonical_of(url@),
{
    match parse_url(url) {
        Some(parts) => canonical_parts(&parts),
        None => None,
    }
}

/// Whether two endpoints are the same.
pub fn same_endpoint(
    a: &Option<(String, String, u16, String)>,
    b: &Option<(String, String, u16, String)>,
) -> (r: bool)
    ensures
        r == (endpoint_view(*a) == endpoint_view(*b)),
{
    match (a, b) {
        (Some(a), Some(b)) => {
            same_text(a.0.as_str(), b.0.as_str()) && same_text(a.1.as_str(), b.1.as_str()) && a.2
                == b.2 && same_text(a.3.as_str(), b.3.as_str())
        },
        (None, None) => true,
        _ => false,
    }
}

/// Whether a text stands for the default endpoint.
pub fn is_default_responses_url(url: &str) -> (r: bool)
    requires
        url@.len() <= MAX_URL_CHARS,
    ensures
        r == (canonical_of(url@) == canonical_of(DEFAULT_CODEX_RESPONSES_URL@)),
{
    proof {
        reveal_strlit("https://chatgpt.com/backend-api/codex/responses");
    }
    same_endpoint(&canonical_endpoint(url), &canonical_endpoint(DEFAULT_CODEX_RESPONSES_URL))
}

/// By what the URL in a text is told from another; `None` where the text is too long
/// to be read as a URL.
pub fn try_canonical_endpoint(url: &str) -> (r: Option<Option<(String, String, u16, String)>>)
    ensures
        r is Some <==> url@.len() <= MAX_URL_CHARS,
        r matches Some(canonical) ==> endpoint_view(canonical) == canonical_of(url@),
{
    if url.unicode_len() <= MAX_URL_CHARS {
        Some(canonical_endpoint(url))
    } else {
        None
    }
}

/// Whether a text stands for the default endpoint; `None` where it is too long to be
/// read as a URL.
pub fn try_is_default_responses_url(url: &str) -> (r: Option<bool>)
    ensures
        r is Some <==> url@.len() <= MAX_URL_CHARS,
        r matches Some(default) ==> default == (canonical_of(url@) == canonical_of(
            DEFAULT_CODEX_RESPONSES_URL@,
        )),
{
    if url.unicode_len() <= MAX_URL_CHARS {
        Some(is_default_responses_url(url))
    } else {
        None
    }
}

/// A path that was made to name the responses names them, and is left as it is
/// from then on.
pub proof fn responses_path_is_final(path: Seq<char>)
    ensures
        responses_path(path) matches Some(made) ==> ends(made, "/responses"@) && responses_path(made)
            is None,
{
    let stem = without_trailing(path, '/');
    let made = stem + "/responses"@;
    reveal_strlit("/responses");
    assert(made.last() == "/responses"@.last());
    assert(made.skip(stem.len() as int) =~= "/responses"@);
    reveal_with_fuel(crate::text::without_trailing, 2);
}

/// The path of an endpoint names the responses, slashes at its end aside.
pub proof fn endpoints_name_the_responses(path: Seq<char>)
    ensures
        ends(without_trailing(endpoint_path(path), '/'), "/responses"@),
{
    responses_path_is_final(path);
}

/// An endpoint is left as it is from then on: it is the URL that it was made from,
/// with the path that it got and nothing behind it, and stands for itself.
pub proof fn endpoints_are_final(url: UrlView)
    requires
        web_scheme(url.scheme),
    ensures
        ({
            let made = url.with_path(endpoint_path(url.path));
            &&& endpoint_from(url) == Ok::<Seq<char>, EndpointError>(made.written)
            &&& made.laid_out()
            &&& endpoint_from(made) == Ok::<Seq<char>, EndpointError>(made.written)
        }),
{
    let made = url.with_path(endpoint_path(url.path));
    responses_path_is_final(url.path);
    assert(made.behind_path() =~= Seq::<char>::empty());
    assert(made.base() =~= url.base());
    assert(made.written =~= made.base() + made.path + made.behind_path());
}

/// Slashes at the end of a URL's path make no other endpoint of it.
pub proof fn trailing_slashes_make_no_other_endpoint(url: UrlView, more: nat)
    ensures
        canonical(UrlView { path: url.path + Seq::new(more, |i: int| '/'), ..url }) == canonical(url),
    decreases more,
{
    let slashes = Seq::new(more, |i: int| '/');
    if more > 0 {
        let fewer = (more - 1) as nat;
        trailing_slashes_make_no_other_endpoint(url, fewer);
        assert((url.path + slashes).drop_last() =~= url.path + Seq::new(fewer, |i: int| '/'));
    } else {
        assert(url.path + slashes =~= url.path);
    }
}

} // verus!
