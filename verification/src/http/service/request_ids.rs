//! The names of requests.
use crate::text::seen;
use vstd::prelude::*;

verus! {

/// The header in which a client may name its request.
pub const DYNAMO_REQUEST_ID_HEADER: &'static str = "x-dynamo-request-id";

/// The annotation that asks for the name of the request.
pub const ANNOTATION_REQUEST_ID: &'static str = "request_id";

/// What `uuid::Uuid::parse_str` reads a text as, written in lower case with hyphens.
pub uninterp spec fn uuid_text(text: Seq<char>) -> Option<Seq<char>>;

/// Whether a text is a UUID in its usual form.
pub open spec fn is_uuid(text: Seq<char>) -> bool {
    uuid_text(text) == Some(text)
}

/// `uuid::Uuid::parse_str` reads a UUID in any of the forms that it knows, or refuses the text.
/// What it read is written in the usual form, which reads as itself.
#[verifier::external_body]
pub(crate) fn parse_uuid(text: &str) -> (uuid: Option<String>)
    ensures
        uuid_text(text@) == (match uuid {
            Some(found) => Some(found@),
            None => None,
        }),
        uuid matches Some(found) ==> is_uuid(found@),
{
    uuid::Uuid::parse_str(text).ok().map(|uuid| uuid.to_string())
}

/// `uuid::Uuid::new_v4` makes a UUID by chance. Nothing is said of which one, only that it is
/// written in the usual form.
#[verifier::external_body]
pub(crate) fn new_uuid() -> (uuid: String)
    ensures
        is_uuid(uuid@),
{
    uuid::Uuid::new_v4().to_string()
}

/// The first of three texts that is there.
pub open spec fn first_text(
    first: Option<Seq<char>>,
    second: Option<Seq<char>>,
    third: Option<Seq<char>>,
) -> Option<Seq<char>> {
    if first is Some {
        first
    } else if second is Some {
        second
    } else {
        third
    }
}

/// The UUID in a text, where there is a text and it holds one.
pub open spec fn uuid_in(text: Option<&str>) -> Option<Seq<char>> {
    match text {
        Some(text) => uuid_text(text@),
        None => None,
    }
}

/// Picks the name of a request: that of the trace that it belongs to, else the one that the
/// request itself gives, else the one in its header.
pub fn known_request_id(
    traced: Option<String>,
    primary: Option<String>,
    header: Option<String>,
) -> (id: Option<String>)
    ensures
        seen(id) == first_text(seen(traced), seen(primary), seen(header)),
{
    if traced.is_some() {
        traced
    } else if primary.is_some() {
        primary
    } else {
        header
    }
}

fn parse_optional(text: Option<&str>) -> (uuid: Option<String>)
    ensures
        seen(uuid) == uuid_in(text),
{
    match text {
        Some(text) => parse_uuid(text),
        None => None,
    }
}

/// Names a request. A name that the client gives counts only where it is a UUID; where nothing
/// gives a name, a new UUID is made.
pub fn get_or_create_request_id(
    traced: Option<String>,
    primary: Option<&str>,
    header: Option<&str>,
) -> (id: String)
    ensures
        match first_text(seen(traced), uuid_in(primary), uuid_in(header)) {
            Some(known) => id@ == known,
            None => is_uuid(id@),
        },
{
    match known_request_id(traced, parse_optional(primary), parse_optional(header)) {
        Some(known) => known,
        None => new_uuid(),
    }
}

} // verus!
