//! The boundary to the external URL parser: the local object store keys
//! its entries by the scheme, host and path of the hosting document's URL.

use vstd::prelude::*;

verus! {

/// The scheme, host (empty when the URL has none) and path that parsing a
/// document URL yields, with query and fragment stripped; `None` when the
/// string is not a parseable URL.
pub uninterp spec fn url_parts(s: Seq<char>) -> Option<(Seq<char>, Seq<char>, Seq<char>)>;

/// The pieces of a parsed document URL that key derivation reads.
pub struct UrlInfo {
    pub scheme: String,
    pub host: String,
    pub path: String,
}

/// Relies on `url::Url::parse` (with `set_query`, `set_fragment`,
/// `scheme`, `host_str` and `path`): whether a string parses, and the
/// scheme, host and path of the result, depend on the string alone.
#[verifier::external_body]
pub fn parse_document_url(s: &str) -> (r: Option<UrlInfo>)
    ensures
        r matches Some(u) ==> url_parts(s@) == Some((u.scheme@, u.host@, u.path@)),
        r is None ==> url_parts(s@) is None,
{
    match url::Url::parse(s) {
        Ok(mut u) => {
            u.set_query(None);
            u.set_fragment(None);
            Some(
                UrlInfo {
                    scheme: u.scheme().to_string(),
                    host: u.host_str().unwrap_or("").to_string(),
                    path: u.path().to_string(),
                },
            )
        },
        Err(_) => None,
    }
}

} // verus!
