//! The parts of a URL, as the `url` crate reads them.
use url::{ParseError, Url};
use vstd::prelude::*;

verus! {

/// Why the `url` crate refused a URL.
#[verifier::external_type_specification]
#[verifier::external_body]
pub struct ExParseError(ParseError);

/// The parts of a URL that this library looks at.
#[derive(Debug)]
pub struct ParsedUrl {
    /// The scheme, in lower case.
    pub scheme: String,
    /// The host, where the URL has one.
    pub host: Option<String>,
    /// The port, where the URL names one.
    pub port: Option<u16>,
    /// The names and values of the query, decoded, in their order.
    pub query: Vec<(String, String)>,
    /// The query as it stands in the URL, where the URL has one.
    pub raw_query: Option<String>,
}

/// Whether `Url::parse` accepts `input`.
pub uninterp spec fn url_parses(input: Seq<char>) -> bool;

/// What `Url::scheme` gives for the URL `input`.
pub uninterp spec fn url_scheme(input: Seq<char>) -> Seq<char>;

/// What `Url::host_str` gives for the URL `input`.
pub uninterp spec fn url_host(input: Seq<char>) -> Option<Seq<char>>;

/// What `Url::port` gives for the URL `input`.
pub uninterp spec fn url_port(input: Seq<char>) -> Option<u16>;

/// What `Url::query_pairs` gives for the URL `input`.
pub uninterp spec fn url_query_pairs(input: Seq<char>) -> Seq<(Seq<char>, Seq<char>)>;

/// What `Url::query` gives for the URL `input`.
pub uninterp spec fn url_query(input: Seq<char>) -> Option<Seq<char>>;

/// The names and values of a query, as text.
pub open spec fn pairs_view(query: Seq<(String, String)>) -> Seq<(Seq<char>, Seq<char>)> {
    Seq::new(query.len(), |i: int| (query[i].0@, query[i].1@))
}

/// The parts of the URL `input`, by `Url::parse`, `Url::scheme`,
/// `Url::host_str`, `Url::port`, `Url::query_pairs` and `Url::query` of the
/// `url` crate.
///
/// The contract names what these give: each is a function of the text of
/// the URL. A URL that `Url::parse` refuses gives its error.
#[verifier::external_body]
pub(crate) fn parse_url(input: &str) -> (r: Result<ParsedUrl, ParseError>)
    ensures
        r is Ok == url_parses(input@),
        r is Ok ==> r.unwrap().scheme@ == url_scheme(input@),
        r is Ok ==> match url_host(input@) {
            Some(h) => r.unwrap().host is Some && r.unwrap().host.unwrap()@ == h,
            None => r.unwrap().host is None,
        },
        r is Ok ==> r.unwrap().port == url_port(input@),
        r is Ok ==> pairs_view(r.unwrap().query@) == url_query_pairs(input@),
        r is Ok ==> match url_query(input@) {
            Some(q) => r.unwrap().raw_query is Some && r.unwrap().raw_query.unwrap()@ == q,
            None => r.unwrap().raw_query is None,
        },
{
    let url = Url::parse(input)?;
    Ok(
        ParsedUrl {
            scheme: url.scheme().to_string(),
            host: url.host_str().map(|h| h.to_string()),
            port: url.port(),
            query: url.query_pairs().map(|(k, v)| (k.to_string(), v.to_string())).collect(),
            raw_query: url.query().map(|q| q.to_string()),
        },
    )
}

} // verus!
