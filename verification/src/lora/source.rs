//! Where adapters come from.
use crate::text::{
    begins_with, decimal, decimal_text, join, same_text, seen, strip_prefix, surround, trim_start,
    trimmed_start,
};
use crate::urls::{parse_url, parts_of, url_parts, ParsedUrl, UrlParts};
use vstd::prelude::*;

verus! {

/// Why an adapter cannot be had.
#[derive(Clone, Debug)]
pub enum LoRAError {
    /// The URI is not one of a file.
    NotAFile,
    /// There is nothing at the path.
    NoPath(String),
    /// What is at the path is no directory.
    NotADirectory(String),
    /// The URI is not one at all; what read it says why.
    NotAUri(String),
    /// The URI is not one of a bucket; its scheme is given.
    NotS3(String),
    /// The URI names no bucket.
    NoBucket,
    /// A setting that is needed is missing; it is named.
    NotSet(&'static str),
    /// Nothing was found at the URI.
    NoFiles(String),
}

impl LoRAError {
    /// What is said of the error.
    pub open spec fn text(self) -> Seq<char> {
        match self {
            LoRAError::NotAFile => "Invalid file URI scheme: expected file://"@,
            LoRAError::NoPath(path) => "LoRA path does not exist: "@ + path@,
            LoRAError::NotADirectory(path) => "LoRA path is not a directory: "@ + path@,
            LoRAError::NotAUri(problem) => problem@,
            LoRAError::NotS3(scheme) => "Invalid S3 URI scheme: "@ + scheme@,
            LoRAError::NoBucket => "No bucket in S3 URI"@,
            LoRAError::NotSet(name) => name@ + " not set"@,
            LoRAError::NoFiles(uri) => "No files found at S3 URI: "@ + uri@,
        }
    }

    pub fn message(&self) -> (message: String)
        ensures
            message@ == self.text(),
    {
        match self {
            LoRAError::NotAFile => String::from_str("Invalid file URI scheme: expected file://"),
            LoRAError::NoPath(path) => join("LoRA path does not exist: ", path.as_str()),
            LoRAError::NotADirectory(path) => join("LoRA path is not a directory: ", path.as_str()),
            LoRAError::NotAUri(problem) => String::from_str(problem.as_str()),
            LoRAError::NotS3(scheme) => join("Invalid S3 URI scheme: ", scheme.as_str()),
            LoRAError::NoBucket => String::from_str("No bucket in S3 URI"),
            LoRAError::NotSet(name) => join(name, " not set"),
            LoRAError::NoFiles(uri) => join("No files found at S3 URI: ", uri.as_str()),
        }
    }
}

/// Adapters on this machine.
#[derive(Clone, Copy, Debug)]
pub struct LocalLoRASource;

impl Default for LocalLoRASource {
    fn default() -> (source: Self)
        ensures
            source == LocalLoRASource,
    {
        LocalLoRASource
    }
}

impl LocalLoRASource {
    pub fn new() -> (source: Self)
        ensures
            source == LocalLoRASource,
    {
        LocalLoRASource
    }

    /// The path in the URI of a file.
    pub fn parse_file_uri(uri: &str) -> (path: Result<String, LoRAError>)
        ensures
            match path {
                Ok(path) => begins_with(uri@, "file://"@) && path@ == uri@.skip(
                    "file://"@.len() as int,
                ),
                Err(error) => !begins_with(uri@, "file://"@) && error == LoRAError::NotAFile,
            },
    {
        match strip_prefix(uri, "file://") {
            Some(path) => Ok(path),
            None => Err(LoRAError::NotAFile),
        }
    }

    /// Gets an adapter that is already on this machine: it stays where it is, in a directory.
    pub fn download(path: String, exists: bool, is_dir: bool) -> (found: Result<String, LoRAError>)
        ensures
            match found {
                Ok(found) => exists && is_dir && found@ == path@,
                Err(LoRAError::NoPath(missing)) => !exists && missing@ == path@,
                Err(LoRAError::NotADirectory(file)) => exists && !is_dir && file@ == path@,
                Err(_) => false,
            },
    {
        if !exists {
            return Err(LoRAError::NoPath(path));
        }
        if !is_dir {
            return Err(LoRAError::NotADirectory(path));
        }
        Ok(path)
    }
}

/// Adapters in a bucket.
#[derive(Clone, Debug)]
pub struct S3LoRASource {
    pub access_key_id: String,
    pub secret_access_key: String,
    pub region: String,
    pub endpoint: Option<String>,
}

/// How often the download of a file is tried.
pub const MAX_RETRIES: u32 = 3;

/// The wait after the first failure, in milliseconds.
pub const INITIAL_BACKOFF_MS: u64 = 1000;

/// The longest wait after a failure, in milliseconds.
pub const MAX_BACKOFF_MS: u64 = 30000;

/// What is done after a failure.
#[derive(Clone, Copy, Debug, PartialEq, Eq, Structural)]
pub enum RetryStep {
    GiveUp,
    /// Try again after some milliseconds.
    Wait(u64),
}

/// How long to wait after a number of failures: a second, and twice as long each further time.
pub open spec fn retry_wait(attempt: nat) -> nat
    decreases attempt,
{
    if attempt <= 1 {
        1000
    } else {
        let wait = 2 * retry_wait((attempt - 1) as nat);
        if wait < 30000 {
            wait
        } else {
            30000
        }
    }
}

/// Decides what is done after a failure; the attempts are counted from one.
pub fn retry_step(attempt: u32) -> (step: RetryStep)
    requires
        1 <= attempt,
    ensures
        step == (if attempt >= 3 {
            RetryStep::GiveUp
        } else {
            RetryStep::Wait(retry_wait(attempt as nat) as u64)
        }),
{
    if attempt >= MAX_RETRIES {
        return RetryStep::GiveUp;
    }
    reveal_with_fuel(retry_wait, 3);
    let mut wait: u64 = INITIAL_BACKOFF_MS;
    if attempt == 2 {
        wait = wait * 2;
    }
    RetryStep::Wait(
        if wait < MAX_BACKOFF_MS {
            wait
        } else {
            MAX_BACKOFF_MS
        },
    )
}

/// A place in a bucket: the bucket and what the names there begin with.
#[derive(Clone, Debug)]
pub struct S3Location {
    pub bucket: String,
    pub key: String,
}

/// Whether the place in a bucket is right for the parts of a URI.
pub open spec fn locates(
    parts: Result<UrlParts, Seq<char>>,
    location: Result<S3Location, LoRAError>,
) -> bool {
    match parts {
        Err(problem) => location matches Err(LoRAError::NotAUri(said)) && said@ == problem,
        Ok(parts) => if parts.scheme != "s3"@ {
            location matches Err(LoRAError::NotS3(scheme)) && scheme@ == parts.scheme
        } else {
            match parts.host {
                None => location matches Err(LoRAError::NoBucket),
                Some(bucket) => location matches Ok(place) && place.bucket@ == bucket && place.key@
                    == trimmed_start(parts.path, '/'),
            }
        },
    }
}

/// The place in a bucket that the parts of a URI name.
pub fn s3_location(parsed: Result<ParsedUrl, String>) -> (location: Result<S3Location, LoRAError>)
    ensures
        locates(parts_of(parsed), location),
{
    match parsed {
        Err(problem) => Err(LoRAError::NotAUri(problem)),
        Ok(parsed) => {
            if !same_text(parsed.scheme.as_str(), "s3") {
                return Err(LoRAError::NotS3(parsed.scheme));
            }
            match parsed.host {
                None => Err(LoRAError::NoBucket),
                Some(bucket) => Ok(S3Location { bucket, key: trim_start(parsed.path.as_str(), '/') }),
            }
        },
    }
}

/// What is done with a name that is found in a bucket.
#[derive(Clone, Debug)]
pub enum EntryAction {
    /// It is the place itself.
    Skip,
    /// Get the file and put it at this path below the destination.
    Fetch(String),
}

/// The path of a name below the place that it was found in.
pub open spec fn relative_path(location: Seq<char>, prefix: Seq<char>) -> Seq<char> {
    trimmed_start(
        if begins_with(location, prefix) {
            location.skip(prefix.len() as int)
        } else {
            location
        },
        '/',
    )
}

/// A download of everything below a place in a bucket.
#[derive(Clone, Copy, Debug, PartialEq, Eq, Structural)]
pub struct S3Download {
    pub files: usize,
}

impl S3Download {
    pub fn new() -> (download: Self)
        ensures
            download.files == 0,
    {
        S3Download { files: 0 }
    }

    /// Decides what is done with a name.
    pub fn on_entry(location: &str, prefix: &str) -> (action: EntryAction)
        ensures
            match action {
                EntryAction::Skip => relative_path(location@, prefix@).len() == 0,
                EntryAction::Fetch(path) => relative_path(location@, prefix@).len() > 0 && path@
                    == relative_path(location@, prefix@),
            },
    {
        let below = match strip_prefix(location, prefix) {
            Some(rest) => rest,
            None => String::from_str(location),
        };
        let path = trim_start(below.as_str(), '/');
        if path.as_str().unicode_len() == 0 {
            EntryAction::Skip
        } else {
            EntryAction::Fetch(path)
        }
    }

    /// Takes note that a file was written.
    pub fn on_written(&mut self)
        requires
            old(self).files < usize::MAX,
        ensures
            final(self).files == old(self).files + 1,
    {
        self.files = self.files + 1;
    }

    /// Decides whether the download is complete when there are no more names: there has to be a
    /// file.
    pub fn on_end(&self, uri: &str) -> (done: Result<(), LoRAError>)
        ensures
            match done {
                Ok(()) => self.files > 0,
                Err(LoRAError::NoFiles(text)) => self.files == 0 && text@ == uri@,
                Err(_) => false,
            },
    {
        if self.files == 0 {
            Err(LoRAError::NoFiles(String::from_str(uri)))
        } else {
            Ok(())
        }
    }
}

/// The name of the directory into which files are downloaded before they are moved to their
/// destination.
pub fn temp_dir_name(dest_name: &str, suffix: u64) -> (name: String)
    ensures
        name@ == dest_name@ + ".tmp."@ + decimal_text(suffix as nat),
{
    surround(dest_name, ".tmp.", decimal(suffix).as_str())
}

impl S3LoRASource {
    /// Takes the settings for a bucket: two keys that have to be there, and a region and an
    /// endpoint that need not.
    pub fn from_settings(
        access_key_id: Option<String>,
        secret_access_key: Option<String>,
        region: Option<String>,
        endpoint: Option<String>,
    ) -> (source: Result<Self, LoRAError>)
        ensures
            match source {
                Ok(source) => {
                    &&& seen(access_key_id) == Some(source.access_key_id@)
                    &&& seen(secret_access_key) == Some(source.secret_access_key@)
                    &&& source.region@ == (match region {
                        Some(region) => region@,
                        None => "us-east-1"@,
                    })
                    &&& source.endpoint == endpoint
                },
                Err(LoRAError::NotSet(name)) => if access_key_id is None {
                    name@ == "AWS_ACCESS_KEY_ID"@
                } else {
                    secret_access_key is None && name@ == "AWS_SECRET_ACCESS_KEY"@
                },
                Err(_) => false,
            },
    {
        let access_key_id = match access_key_id {
            Some(key) => key,
            None => {
                return Err(LoRAError::NotSet("AWS_ACCESS_KEY_ID"));
            },
        };
        let secret_access_key = match secret_access_key {
            Some(key) => key,
            None => {
                return Err(LoRAError::NotSet("AWS_SECRET_ACCESS_KEY"));
            },
        };
        let region = match region {
            Some(region) => region,
            None => String::from_str("us-east-1"),
        };
        Ok(S3LoRASource { access_key_id, secret_access_key, region, endpoint })
    }

    /// The place in a bucket that a URI names.
    pub fn parse_s3_uri(uri: &str) -> (location: Result<S3Location, LoRAError>)
        ensures
            locates(url_parts(uri@), location),
    {
        s3_location(parse_url(uri))
    }
}

} // verus!
