//! The federation discovery query: the resource and URL that ask a server
//! whether an account exists there.

use vstd::prelude::*;

verus! {

#[verifier::external_type_specification]
#[verifier::external_body]
pub struct ExParseError(url::ParseError);

/// Whether `url::Url::parse_with_params` reads a string as an absolute URL.
pub uninterp spec fn absolute_url(s: Seq<char>) -> bool;

/// The text of the URL that `url::Url::parse_with_params` builds from `input`
/// and one name and value for its query.
pub uninterp spec fn url_with_query_pair(input: Seq<char>, name: Seq<char>, value: Seq<char>) -> Seq<char>;

/// Relies on `url::Url::parse_with_params`: parses `input` as an absolute URL
/// and appends one form-encoded name and value to its query; fails exactly
/// when `input` is not an absolute URL. The URL is handed back as its text.
#[verifier::external_body]
fn parse_with_query_pair(input: &str, name: &str, value: &str) -> (r: Result<String, url::ParseError>)
    ensures
        r is Ok <==> absolute_url(input@),
        r is Ok ==> r->Ok_0@ == url_with_query_pair(input@, name@, value@),
{
    url::Url::parse_with_params(input, &[(name, value)]).map(String::from)
}

/// The well-known path of the discovery endpoint.
pub const WEBFINGER_PATH: &'static str = "/.well-known/webfinger";

/// The name of the query parameter that carries the resource.
pub const RESOURCE_PARAMETER: &'static str = "resource";

/// The text without its trailing `/`s.
pub open spec fn strip_trailing_slashes(s: Seq<char>) -> Seq<char>
    decreases s.len(),
{
    if s.len() > 0 && s.last() == '/' {
        strip_trailing_slashes(s.drop_last())
    } else {
        s
    }
}

/// The discovery endpoint of a server: its address, then the well-known path.
pub open spec fn webfinger_endpoint(domain: Seq<char>) -> Seq<char> {
    strip_trailing_slashes(domain) + WEBFINGER_PATH@
}

/// The discovery resource that names an account address.
pub open spec fn acct_resource(address: Seq<char>) -> Seq<char> {
    seq!['a', 'c', 'c', 't', ':'] + address
}

/// Builds the discovery resource `acct:<address>`.
pub fn webfinger_resource(address: &str) -> (r: String)
    ensures
        r@ == acct_resource(address@),
{
    proof {
        reveal_strlit("acct:");
    }
    let mut resource = String::from_str("acct:");
    resource.append(address);
    resource
}

/// Removes every trailing `/`.
fn trim_trailing_slashes(s: &str) -> (r: &str)
    ensures
        r@ == strip_trailing_slashes(s@),
{
    let mut end = s.unicode_len();
    assert(s@.take(end as int) =~= s@);
    while end > 0 && s.get_char(end - 1) == '/'
        invariant
            end <= s@.len(),
            strip_trailing_slashes(s@) == strip_trailing_slashes(s@.take(end as int)),
        decreases end,
    {
        assert(s@.take(end as int).drop_last() =~= s@.take(end - 1));
        end -= 1;
    }
    assert(s@.subrange(0, end as int) =~= s@.take(end as int));
    s.substring_char(0, end)
}

/// The discovery URL, as text, on the server at `domain` for `resource`: the
/// well-known path after the server's address, with the resource as the
/// `resource` query parameter. Fails exactly when that is not an absolute URL.
pub fn get_domain_webfinger_url(domain: &str, resource: &str) -> (r: Result<String, url::ParseError>)
    ensures
        r is Ok <==> absolute_url(webfinger_endpoint(domain@)),
        r is Ok ==> r->Ok_0@ == url_with_query_pair(
            webfinger_endpoint(domain@),
            RESOURCE_PARAMETER@,
            resource@,
        ),
{
    let mut endpoint = String::from_str(trim_trailing_slashes(domain));
    endpoint.append(WEBFINGER_PATH);
    parse_with_query_pair(endpoint.as_str(), RESOURCE_PARAMETER, resource)
}

} // verus!
