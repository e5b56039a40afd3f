//! What finding and fetching adapters keeps to.
use crate::lora::downloader::{
    cache_key, key_char, uri_to_cache_key, without_scheme_marks, LoRADownloader, Search,
    SearchAction, SearchEvent,
};
use crate::lora::source::{
    relative_path, retry_step, s3_location, temp_dir_name, EntryAction, LoRAError,
    LocalLoRASource, RetryStep, S3Download, S3LoRASource, S3Location,
};
use crate::text::decimal_text;
use crate::urls::ParsedUrl;
use vstd::prelude::*;

verus! {

/// The path of a file is what follows the scheme; anything without that scheme is refused.
pub proof fn law_files_are_named_by_their_path(
    uri: &str,
    path: Result<String, LoRAError>,
    rest: Seq<char>,
)
    requires
        call_ensures(LocalLoRASource::parse_file_uri, (uri,), path),
    ensures
        path matches Ok(path) ==> uri@ == "file://"@ + path@,
        path matches Err(error) ==> error is NotAFile && uri@ != "file://"@ + rest,
{
    if path is Err && uri@ == "file://"@ + rest {
        assert(uri@.take("file://"@.len() as int) =~= "file://"@);
    }
    if let Ok(path) = path {
        assert(uri@ =~= "file://"@ + path@);
    }
}

/// An adapter on this machine is used where it is, if it is there and is a directory.
pub proof fn law_local_adapters_are_used_where_they_are(
    path: String,
    exists: bool,
    is_dir: bool,
    found: Result<String, LoRAError>,
)
    requires
        call_ensures(LocalLoRASource::download, (path, exists, is_dir), found),
    ensures
        found is Ok <==> exists && is_dir,
        found matches Ok(found) ==> found@ == path@,
        found matches Err(error) ==> (error is NoPath <==> !exists) && (error is NotADirectory
            <==> exists),
{
}

/// A failed attempt is followed by another one up to the third; the wait is a second after the
/// first and doubles.
pub proof fn law_attempts_are_three(attempt: u32, step: RetryStep, next: u32, later: RetryStep)
    requires
        1 <= attempt,
        next == attempt + 1,
        call_ensures(retry_step, (attempt,), step),
        call_ensures(retry_step, (next,), later),
    ensures
        step is GiveUp <==> attempt >= 3,
        attempt == 1 ==> step == RetryStep::Wait(1000),
        attempt == 1 ==> later == RetryStep::Wait(2000),
{
    reveal_with_fuel(crate::lora::source::retry_wait, 3);
}

/// An adapter in a bucket is named by its host and by its path without the slashes before it; what
/// is no URI, has another scheme or names no host is refused.
pub proof fn law_adapters_in_buckets_are_named_by_host_and_path(
    parsed: Result<ParsedUrl, String>,
    location: Result<S3Location, LoRAError>,
)
    requires
        call_ensures(s3_location, (parsed,), location),
    ensures
        location is Ok <==> (parsed matches Ok(url) && url.scheme@ == "s3"@ && url.host is Some),
        location matches Ok(place) ==> (parsed matches Ok(url) && place.bucket@
            == url.host->Some_0@ && place.key@.len() <= url.path@.len() && place.key@
            == url.path@.skip(url.path@.len() - place.key@.len()) && (place.key@.len() > 0
            ==> place.key@[0] != '/') && forall|i: int|
            0 <= i < url.path@.len() - place.key@.len() ==> #[trigger] url.path@[i] == '/'),
        location matches Err(error) ==> {
            &&& error is NotAUri <==> parsed is Err
            &&& error is NotS3 <==> (parsed matches Ok(url) && url.scheme@ != "s3"@)
            &&& error is NoBucket <==> (parsed matches Ok(url) && url.scheme@ == "s3"@
                && url.host is None)
        },
{
    if let Ok(url) = parsed {
        lemma_trimmed(url.path@, '/');
    }
}

proof fn lemma_trimmed(text: Seq<char>, character: char)
    ensures
        ({
            let trimmed = crate::text::trimmed_start(text, character);
            &&& trimmed.len() <= text.len()
            &&& trimmed == text.skip(text.len() - trimmed.len())
            &&& trimmed.len() > 0 ==> trimmed[0] != character
            &&& forall|i: int|
                0 <= i < text.len() - trimmed.len() ==> #[trigger] text[i] == character
        }),
    decreases text.len(),
{
    let trimmed = crate::text::trimmed_start(text, character);
    if text.len() > 0 && text[0] == character {
        let rest = text.drop_first();
        lemma_trimmed(rest, character);
        assert(rest.skip(rest.len() - trimmed.len()) =~= text.skip(text.len() - trimmed.len()));
        assert forall|i: int| 0 <= i < text.len() - trimmed.len() implies #[trigger] text[i]
            == character by {
            if i > 0 {
                assert(rest[i - 1] == text[i]);
            }
        }
    } else {
        assert(text.skip(0) =~= text);
    }
}

/// A file below the prefix is fetched under what follows the prefix and the slashes behind it; the
/// prefix itself is passed over.
pub proof fn law_files_keep_their_place_below_the_prefix(
    location: &str,
    prefix: &str,
    action: EntryAction,
    rest: Seq<char>,
)
    requires
        call_ensures(S3Download::on_entry, (location, prefix), action),
        location@ == prefix@ + rest,
    ensures
        rest.len() == 0 ==> action is Skip,
        rest.len() > 0 && rest[0] != '/' ==> (action matches EntryAction::Fetch(path) && path@
            == rest),
        rest.len() > 1 && rest[0] == '/' && rest[1] != '/' ==> (
        action matches EntryAction::Fetch(path) && path@ == rest.skip(1)),
        action matches EntryAction::Fetch(path) ==> path@.len() > 0 && path@[0] != '/',
{
    assert(location@.take(prefix@.len() as int) =~= prefix@);
    assert(location@.skip(prefix@.len() as int) =~= rest);
    lemma_trimmed(rest, '/');
    if rest.len() > 0 && rest[0] == '/' {
        assert(rest.drop_first() =~= rest.skip(1));
        if rest.len() > 1 {
            assert(rest.drop_first()[0] == rest[1]);
        }
    }
}

/// A download that brought no file has failed.
pub proof fn law_downloads_bring_files(
    download: &S3Download,
    uri: &str,
    done: Result<(), LoRAError>,
    counted: &mut S3Download,
)
    requires
        call_ensures(S3Download::on_end, (download, uri), done),
        call_ensures(S3Download::on_written, (counted,), ()),
    ensures
        done is Ok <==> download.files > 0,
        done matches Err(LoRAError::NoFiles(told)) ==> told@ == uri@,
        final(counted).files == old(counted).files + 1,
{
}

/// Settings are taken as given; the keys are needed, and the region has a usual value.
pub proof fn law_buckets_need_their_keys(
    key: Option<String>,
    secret: Option<String>,
    region: Option<String>,
    endpoint: Option<String>,
    source: Result<S3LoRASource, LoRAError>,
)
    requires
        call_ensures(S3LoRASource::from_settings, (key, secret, region, endpoint), source),
    ensures
        source is Ok <==> key is Some && secret is Some,
        source matches Ok(source) ==> {
            &&& source.access_key_id@ == key->Some_0@
            &&& source.secret_access_key@ == secret->Some_0@
            &&& region matches Some(region) ==> source.region@ == region@
            &&& region is None ==> source.region@ == "us-east-1"@
            &&& source.endpoint == endpoint
        },
        source matches Err(LoRAError::NotSet(name)) ==> name@ == (if key is None {
            "AWS_ACCESS_KEY_ID"@
        } else {
            "AWS_SECRET_ACCESS_KEY"@
        }),
{
}

/// What is not yet complete lies beside its place, under that name and a number.
pub proof fn law_incomplete_downloads_have_names_of_their_own(
    name: &str,
    suffix: u64,
    temporary: String,
)
    requires
        call_ensures(temp_dir_name, (name, suffix), temporary),
    ensures
        temporary@ == name@ + ".tmp."@ + decimal_text(suffix as nat),
{
}

/// The search asks the sources one after the other, and downloads from the first that has the
/// adapter. One on this machine is used as it is; any other one is looked for in the cache first,
/// and used once it is valid, or else the search goes on behind its source. It fails only with what
/// went wrong or after the last source.
pub proof fn law_sources_are_asked_in_order<S>(
    downloader: &LoRADownloader<S>,
    search: Search,
    event: SearchEvent,
    uri: &str,
    after: Search,
    action: SearchAction,
)
    requires
        search.source < usize::MAX,
        call_ensures(
            LoRADownloader::<S>::next_action,
            (downloader, search, event, uri),
            (after, action),
        ),
    ensures
        ({
            let sources = downloader.sources@.len();
            &&& action is CheckCache <==> event is Begin && !after.local
            &&& action is UseCached <==> (event matches SearchEvent::CacheChecked(Ok(hit)) && hit)
            &&& action matches SearchAction::Ask(source) ==> source == after.source && source
                < sources
            &&& action matches SearchAction::Download(source) ==> event == SearchEvent::Asked(
                Some(true),
            ) && source == search.source
            &&& event == SearchEvent::Asked(Some(true)) ==> action is Download
            &&& event is Asked && event != SearchEvent::Asked(Some(true)) ==> after.source
                == search.source + 1
            &&& action is Validate <==> (event matches SearchEvent::Downloaded(Ok(()))
                && !search.local)
            &&& action is UseDownloaded <==> (event matches SearchEvent::Downloaded(Ok(()))
                && search.local) || (event matches SearchEvent::Validated(Ok(valid)) && valid)
            &&& event matches SearchEvent::Validated(Ok(valid)) ==> (!valid ==> after.source
                == search.source + 1)
            &&& !(event is Begin) ==> after.local == search.local
            &&& event == SearchEvent::Asked(Some(true)) || event is CacheChecked
                || event is Downloaded ==> after.source == search.source
            &&& event is Asked && event != SearchEvent::Asked(Some(true)) && search.source + 1
                < sources ==> action is Ask
            &&& event is Asked && event != SearchEvent::Asked(Some(true)) && search.source + 1
                >= sources ==> action is Fail
        }),
{
}

proof fn lemma_marks(text: Seq<char>, i: int)
    requires
        forall|k: int| 0 <= k < text.len() ==> #[trigger] text[k] != ':',
    ensures
        without_scheme_marks(text) == text,
    decreases text.len(),
{
    if text.len() > 0 {
        assert(text[0] != ':');
        let rest = text.skip(1);
        assert forall|k: int| 0 <= k < rest.len() implies #[trigger] rest[k] != ':' by {
            assert(rest[k] == text[k + 1]);
        }
        lemma_marks(rest, i);
        assert(seq![text[0]] + rest =~= text);
    }
}

proof fn lemma_scheme(scheme: Seq<char>, rest: Seq<char>)
    requires
        forall|k: int| 0 <= k < scheme.len() ==> #[trigger] scheme[k] != ':',
        forall|k: int| 0 <= k < rest.len() ==> #[trigger] rest[k] != ':',
    ensures
        without_scheme_marks(scheme + seq![':', '/', '/'] + rest) == scheme + seq!['_'] + rest,
    decreases scheme.len(),
{
    let text = scheme + seq![':', '/', '/'] + rest;
    if scheme.len() == 0 {
        assert(text.skip(3) =~= rest);
        lemma_marks(rest, 0);
        assert(seq!['_'] + rest =~= scheme + seq!['_'] + rest);
    } else {
        assert(scheme[0] != ':');
        let shorter = scheme.skip(1);
        assert forall|k: int| 0 <= k < shorter.len() implies #[trigger] shorter[k] != ':' by {
            assert(shorter[k] == scheme[k + 1]);
        }
        lemma_scheme(shorter, rest);
        assert(text.skip(1) =~= shorter + seq![':', '/', '/'] + rest);
        assert(seq![text[0]] + (shorter + seq!['_'] + rest) =~= scheme + seq!['_'] + rest);
    }
}

/// An adapter is kept under its URI, in which the marks behind the scheme become one line and each
/// slash of either kind becomes one too; everything else stays.
pub proof fn law_cache_keys_follow_the_uri(
    uri: &str,
    key: String,
    scheme: Seq<char>,
    rest: Seq<char>,
    i: int,
)
    requires
        call_ensures(uri_to_cache_key, (uri,), key),
        !scheme.contains(':'),
        !scheme.contains('/'),
        !scheme.contains('\\'),
        !rest.contains(':'),
        uri@ == scheme + seq![':', '/', '/'] + rest,
    ensures
        key@.len() == scheme.len() + 1 + rest.len(),
        0 <= i < scheme.len() ==> key@[i] == scheme[i],
        key@[scheme.len() as int] == '_',
        0 <= i < rest.len() ==> key@[scheme.len() + 1 + i] == (if rest[i] == '/' || rest[i] == '\\' {
            '_'
        } else {
            rest[i]
        }),
{
    assert forall|k: int| 0 <= k < scheme.len() implies #[trigger] scheme[k] != ':' by {
        assert(scheme.contains(scheme[k]));
    }
    assert forall|k: int| 0 <= k < rest.len() implies #[trigger] rest[k] != ':' by {
        assert(rest.contains(rest[k]));
    }
    lemma_scheme(scheme, rest);
    let plain = scheme + seq!['_'] + rest;
    assert(key@ =~= plain.map_values(|character: char| key_char(character)));
    if 0 <= i < scheme.len() {
        assert(scheme.contains(scheme[i]));
        assert(plain[i] == scheme[i]);
    }
    if 0 <= i < rest.len() {
        assert(plain[scheme.len() + 1 + i] == rest[i]);
    }
}

/// What is wrong with an adapter is told with what was asked for.
pub proof fn law_errors_tell_what_was_asked_for(error: &LoRAError, message: String)
    requires
        call_ensures(LoRAError::message, (error,), message),
    ensures
        *error is NotAFile ==> message@ == "Invalid file URI scheme: expected file://"@,
        *error matches LoRAError::NoPath(path) ==> message@ == "LoRA path does not exist: "@ + path@,
        *error matches LoRAError::NotADirectory(path) ==> message@
            == "LoRA path is not a directory: "@ + path@,
        *error matches LoRAError::NotAUri(problem) ==> message@ == problem@,
        *error matches LoRAError::NotS3(scheme) ==> message@ == "Invalid S3 URI scheme: "@ + scheme@,
        *error is NoBucket ==> message@ == "No bucket in S3 URI"@,
        *error matches LoRAError::NotSet(name) ==> message@ == name@ + " not set"@,
        *error matches LoRAError::NoFiles(uri) ==> message@ == "No files found at S3 URI: "@ + uri@,
{
}

} // verus!
