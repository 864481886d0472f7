//! URL parsing and joining through the `url` crate.
//!
//! WHATWG URL parsing takes pages to state, so what `url::Url::parse` and
//! `Url::join` return is named (`url_parse`, `url_join`) and the library's
//! contracts speak of those names.
use vstd::prelude::*;

verus! {

/// The pieces of a parsed URL that the library reads, as plain strings.
pub struct UrlParts {
    /// `Url::scheme`, lower case, without `:`.
    pub scheme: String,
    /// `Url::authority`: userinfo, host and non-default port.
    pub authority: String,
    /// `Url::host_str`.
    pub host: Option<String>,
    /// `Url::path`, percent-encoded.
    pub path: String,
    /// `Url::query`, without `?`.
    pub query: Option<String>,
    /// `Url::query_pairs`, decoded, in order.
    pub pairs: Vec<(String, String)>,
    /// `Url::path_segments`: `None` for a URL that cannot be a base.
    pub segments: Option<Vec<String>>,
}

/// The mathematical view of `UrlParts`.
pub struct UrlView {
    pub scheme: Seq<char>,
    pub authority: Seq<char>,
    pub host: Option<Seq<char>>,
    pub path: Seq<char>,
    pub query: Option<Seq<char>>,
    pub pairs: Seq<(Seq<char>, Seq<char>)>,
    pub segments: Option<Seq<Seq<char>>>,
}

pub open spec fn opt_view(o: Option<String>) -> Option<Seq<char>> {
    match o {
        Some(s) => Some(s@),
        None => None,
    }
}

pub open spec fn pair_view(p: (String, String)) -> (Seq<char>, Seq<char>) {
    (p.0@, p.1@)
}

impl View for UrlParts {
    type V = UrlView;

    open spec fn view(&self) -> UrlView {
        UrlView {
            scheme: self.scheme@,
            authority: self.authority@,
            host: opt_view(self.host),
            path: self.path@,
            query: opt_view(self.query),
            pairs: self.pairs@.map_values(|p: (String, String)| pair_view(p)),
            segments: match self.segments {
                Some(v) => Some(v@.map_values(|s: String| s@)),
                None => None,
            },
        }
    }
}

/// What `url::Url::parse` makes of a text: `None` when it is refused.
pub uninterp spec fn url_parse(text: Seq<char>) -> Option<UrlView>;

/// What `Url::parse(base)` then `Url::join(rel)` serialises to; `None`
/// when either step is refused.
pub uninterp spec fn url_join(base: Seq<char>, rel: Seq<char>) -> Option<Seq<char>>;

/// `url::Url::parse(text)`, read into plain strings. The result is the one
/// that `url_parse` names; nothing more is claimed of it.
#[verifier::external_body]
pub(crate) fn parse_url(text: &str) -> (r: Option<UrlParts>)
    ensures
        match r {
            Some(u) => url_parse(text@) == Some(u@),
            None => url_parse(text@) is None,
        },
{
    let u = url::Url::parse(text).ok()?;
    Some(UrlParts {
        scheme: u.scheme().to_string(),
        authority: u.authority().to_string(),
        host: u.host_str().map(|h| h.to_string()),
        path: u.path().to_string(),
        query: u.query().map(|q| q.to_string()),
        pairs: u.query_pairs().map(|(k, v)| (k.into_owned(), v.into_owned())).collect(),
        segments: u.path_segments().map(|s| s.map(|x| x.to_string()).collect()),
    })
}

/// `Url::parse(base)` and `Url::join(rel)` on it, serialised with
/// `to_string`. The result is the one that `url_join` names.
#[verifier::external_body]
pub(crate) fn join_parsed(base: &str, rel: &str) -> (r: Option<String>)
    ensures
        match r {
            Some(s) => url_join(base@, rel@) == Some(s@),
            None => url_join(base@, rel@) is None,
        },
{
    url::Url::parse(base).ok()?.join(rel).ok().map(|j| j.to_string())
}

} // verus!
