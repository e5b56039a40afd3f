//! Taking URLs apart.
use vstd::prelude::*;

verus! {

/// The parts of a URL that the library looks at.
#[derive(Clone, Debug, PartialEq, Eq)]
pub struct ParsedUrl {
    pub scheme: String,
    pub host: Option<String>,
    pub path: String,
}

/// The text of those parts.
pub struct UrlParts {
    pub scheme: Seq<char>,
    pub host: Option<Seq<char>>,
    pub path: Seq<char>,
}

impl View for ParsedUrl {
    type V = UrlParts;

    open spec fn view(&self) -> UrlParts {
        UrlParts {
            scheme: self.scheme@,
            host: match self.host {
                Some(host) => Some(host@),
                None => None,
            },
            path: self.path@,
        }
    }
}

/// What `url::Url::parse` makes of a text: the parts, or what it says of a text that is no URL.
pub uninterp spec fn url_parts(text: Seq<char>) -> Result<UrlParts, Seq<char>>;

/// The parts of a URL, or what was said of a text that is none.
pub open spec fn parts_of(parsed: Result<ParsedUrl, String>) -> Result<UrlParts, Seq<char>> {
    match parsed {
        Ok(parsed) => Ok(parsed@),
        Err(problem) => Err(problem@),
    }
}

/// Calls `url::Url::parse` and reads `scheme`, `host_str` and `path` off the result, or writes the
/// error down. All of these, and whether there is a result, are determined by the text.
#[verifier::external_body]
pub(crate) fn parse_url(text: &str) -> (parsed: Result<ParsedUrl, String>)
    ensures
        parts_of(parsed) == url_parts(text@),
{
    match url::Url::parse(text) {
        Ok(url) => Ok(
            ParsedUrl {
                scheme: url.scheme().to_string(),
                host: url.host_str().map(|host| host.to_string()),
                path: url.path().to_string(),
            },
        ),
        Err(error) => Err(error.to_string()),
    }
}

} // verus!
