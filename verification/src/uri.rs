//! Local file paths of document URIs, as the `url` crate reads them.
use vstd::prelude::*;

verus! {

/// What `url::Url::parse` and then `Url::to_file_path` give for a text, as
/// the crate computes it on Unix: `None` when the text is no URL,
/// `Some(None)` when the URL names no local file (it has a host other than
/// `localhost`, or no path), else the percent-decoded path.
pub uninterp spec fn uri_file_path(uri: Seq<char>) -> Option<Option<Seq<char>>>;

/// Parses a URI with `url::Url::parse` and converts it with
/// `Url::to_file_path`; the outcome is named `uri_file_path`. A path that
/// is not UTF-8 is read lossily, as `Path::to_string_lossy` does.
#[verifier::external_body]
pub fn file_path_of_uri(uri: &str) -> (r: Option<Option<String>>)
    ensures
        match r {
            None => uri_file_path(uri@) is None,
            Some(None) => uri_file_path(uri@) == Some(None::<Seq<char>>),
            Some(Some(p)) => uri_file_path(uri@) == Some(Some(p@)),
        },
{
    match url::Url::parse(uri) {
        Ok(u) => Some(u.to_file_path().ok().map(|p| p.to_string_lossy().into_owned())),
        Err(_) => None,
    }
}

} // verus!
