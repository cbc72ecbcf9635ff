//! URLs as plain values.
use vstd::prelude::*;

use crate::text::{byte_len, text_option};

verus! {

/// The parts of a URL.
pub struct UrlParts {
    pub scheme: String,
    pub host: Option<String>,
    pub path: String,
    pub query: Option<String>,
    pub fragment: Option<String>,
    pub username: String,
    pub password: Option<String>,
}

/// The parts of a URL as sequences of characters.
pub struct UrlModel {
    pub scheme: Seq<char>,
    pub host: Option<Seq<char>>,
    pub path: Seq<char>,
    pub query: Option<Seq<char>>,
    pub fragment: Option<Seq<char>>,
    pub username: Seq<char>,
    pub password: Option<Seq<char>>,
}

impl View for UrlParts {
    type V = UrlModel;

    open spec fn view(&self) -> UrlModel {
        UrlModel {
            scheme: self.scheme@,
            host: text_option(self.host),
            path: self.path@,
            query: text_option(self.query),
            fragment: text_option(self.fragment),
            username: self.username@,
            password: text_option(self.password),
        }
    }
}

/// The parts of the URL that a text writes; nothing where it writes none.
pub uninterp spec fn url_of(text: Seq<char>) -> Option<UrlModel>;

/// `Url::parse`, with the parts of the URL by its accessors `scheme`,
/// `host_str`, `path`, `query`, `fragment`, `username` and `password`.
#[verifier::external_body]
pub(crate) fn parse_url(text: &str) -> (r: Option<UrlParts>)
    ensures
        match r {
            Some(parts) => url_of(text@) == Some(parts@),
            None => url_of(text@) is None,
        },
{
    url::Url::parse(text).ok().map(|url| UrlParts {
        scheme: url.scheme().to_owned(),
        host: url.host_str().map(str::to_owned),
        path: url.path().to_owned(),
        query: url.query().map(str::to_owned),
        fragment: url.fragment().map(str::to_owned),
        username: url.username().to_owned(),
        password: url.password().map(str::to_owned),
    })
}

/// The origin of the HTTPS URL that a text writes: scheme, host and port.
pub uninterp spec fn https_origin(text: Seq<char>) -> Option<(Seq<char>, Seq<char>, u16)>;

/// The characters of an origin.
pub open spec fn origin_texts(origin: Option<(String, String, u16)>) -> Option<
    (Seq<char>, Seq<char>, u16),
> {
    match origin {
        Some((scheme, host, port)) => Some((scheme@, host@, port)),
        None => None,
    }
}

/// `Url::parse`, then `origin`: scheme, host and port, the port being that of the
/// scheme where the URL gives none. Only HTTPS URLs are asked: the origin of some
/// other schemes is found by parsing the path in turn, to any depth.
#[verifier::external_body]
pub(crate) fn url_origin(text: &str) -> (r: Option<(String, String, u16)>)
    requires
        url_of(text@) matches Some(url) && url.scheme == "https"@,
    ensures
        origin_texts(r) == https_origin(text@),
        r is Some,
{
    match url::Url::parse(text).ok()?.origin() {
        url::Origin::Tuple(scheme, host, port) => Some((scheme, host.to_string(), port)),
        url::Origin::Opaque(_) => None,
    }
}

/// The characters of names and values.
pub open spec fn pair_texts(pairs: Seq<(String, String)>) -> Seq<(Seq<char>, Seq<char>)> {
    pairs.map_values(|p: (String, String)| (p.0@, p.1@))
}

/// A URL with names and values added to its query.
pub uninterp spec fn url_with_pairs(
    url: Seq<char>,
    pairs: Seq<(Seq<char>, Seq<char>)>,
) -> Option<Seq<char>>;

/// `Url::parse`, then `extend_pairs` on `query_pairs_mut`, which encodes each
/// name and value and adds them in order; the URL as text. It fails where the
/// text is no URL, and only there. A fragment, which is put back behind the
/// query at a place that has to fit into 32 bits, is ruled out.
#[verifier::external_body]
pub(crate) fn add_query_pairs(url: &str, pairs: &Vec<(String, String)>) -> (r: Option<String>)
    requires
        byte_len(url@) <= 65_536,
        url_of(url@) matches Some(parts) ==> parts.fragment is None,
    ensures
        text_option(r) == url_with_pairs(url@, pair_texts(pairs@)),
        r is Some <==> url_of(url@) is Some,
{
    url::Url::parse(url).ok().map(|mut url| {
        url.query_pairs_mut().extend_pairs(pairs);
        url.to_string()
    })
}

} // verus!
