//! Finding an adapter: in the cache, or in the first source that has it.
use crate::text::{begins_with, join, strip_prefix, surround};
use vstd::prelude::*;

verus! {

/// Looks for adapters in some sources, in order.
#[derive(Debug)]
pub struct LoRADownloader<S> {
    pub sources: Vec<S>,
}

/// Where the search for an adapter stands.
#[derive(Clone, Copy, Debug, PartialEq, Eq, Structural)]
pub struct Search {
    /// The adapter is on this machine, so the cache does not matter.
    pub local: bool,
    /// The source that is asked next, or that was asked last.
    pub source: usize,
}

/// What happened in the search for an adapter.
#[derive(Debug)]
pub enum SearchEvent {
    /// The search begins.
    Begin,
    /// The cache was looked at; an adapter in it has to be valid.
    CacheChecked(Result<bool, String>),
    /// A source was asked whether it has the adapter; it may not know the kind of URI.
    Asked(Option<bool>),
    /// A source was told to get the adapter.
    Downloaded(Result<(), String>),
    /// What was put into the cache was looked at.
    Validated(Result<bool, String>),
}

/// What is done next in the search for an adapter.
#[derive(Debug)]
pub enum SearchAction {
    /// Look into the cache, under the adapter's key.
    CheckCache,
    /// Take the adapter from the cache.
    UseCached,
    /// Ask a source whether it has the adapter.
    Ask(usize),
    /// Tell a source to get the adapter.
    Download(usize),
    /// Look at what was put into the cache.
    Validate,
    /// Take what the source got.
    UseDownloaded,
    /// Give up.
    Fail(String),
}

/// Whether an action goes on with the next source, or gives up where there is none.
pub open spec fn goes_on(
    local: bool,
    next: int,
    sources: nat,
    uri: Seq<char>,
    action: SearchAction,
) -> bool {
    if next < sources {
        action matches SearchAction::Ask(source) && source == next
    } else {
        action matches SearchAction::Fail(message) && message@ == (if local {
            "Local LoRA not found: "@ + uri
        } else {
            "LoRA "@ + uri + " not found in any source"@
        })
    }
}

/// Whether an action, and where the search then stands, are the ones that an event calls for.
pub open spec fn continues(
    before: Search,
    event: SearchEvent,
    sources: nat,
    uri: Seq<char>,
    after: Search,
    action: SearchAction,
) -> bool {
    match event {
        SearchEvent::Begin => {
            &&& after.local == begins_with(uri, "file://"@)
            &&& after.source == 0
            &&& if after.local {
                goes_on(true, 0, sources, uri, action)
            } else {
                action is CheckCache
            }
        },
        SearchEvent::CacheChecked(outcome) => {
            &&& after == before
            &&& match outcome {
                Ok(true) => action is UseCached,
                Ok(false) => goes_on(before.local, before.source as int, sources, uri, action),
                Err(problem) => action matches SearchAction::Fail(message) && message@ == problem@,
            }
        },
        SearchEvent::Asked(answer) => if answer == Some(true) {
            after == before && (action matches SearchAction::Download(source) && source
                == before.source)
        } else {
            &&& after == (Search { source: (before.source + 1) as usize, ..before })
            &&& goes_on(before.local, before.source + 1, sources, uri, action)
        },
        SearchEvent::Downloaded(outcome) => {
            &&& after == before
            &&& match outcome {
                Ok(()) => if before.local {
                    action is UseDownloaded
                } else {
                    action is Validate
                },
                Err(problem) => action matches SearchAction::Fail(message) && message@ == problem@,
            }
        },
        SearchEvent::Validated(outcome) => match outcome {
            Ok(true) => after == before && action is UseDownloaded,
            Ok(false) => {
                &&& after == (Search { source: (before.source + 1) as usize, ..before })
                &&& goes_on(before.local, before.source + 1, sources, uri, action)
            },
            Err(problem) => after == before && (action matches SearchAction::Fail(message)
                && message@ == problem@),
        },
    }
}

impl<S> LoRADownloader<S> {
    pub fn new(sources: Vec<S>) -> (downloader: Self)
        ensures
            downloader.sources == sources,
    {
        LoRADownloader { sources }
    }

    fn go_on(&self, local: bool, next: usize, uri: &str) -> (action: SearchAction)
        ensures
            goes_on(local, next as int, self.sources@.len(), uri@, action),
    {
        if next < self.sources.len() {
            return SearchAction::Ask(next);
        }
        if local {
            SearchAction::Fail(join("Local LoRA not found: ", uri))
        } else {
            SearchAction::Fail(surround("LoRA ", uri, " not found in any source"))
        }
    }

    /// Decides what is done next in the search for an adapter. An adapter on this machine is used
    /// where it is; any other one is looked for in the cache before the sources are asked, one
    /// after the other, and what a source gets has to be valid.
    pub fn next_action(&self, search: Search, event: SearchEvent, uri: &str) -> (decided: (
        Search,
        SearchAction,
    ))
        requires
            search.source < usize::MAX,
        ensures
            continues(search, event, self.sources@.len(), uri@, decided.0, decided.1),
    {
        match event {
            SearchEvent::Begin => {
                let local = strip_prefix(uri, "file://").is_some();
                let begun = Search { local, source: 0 };
                if local {
                    (begun, self.go_on(true, 0, uri))
                } else {
                    (begun, SearchAction::CheckCache)
                }
            },
            SearchEvent::CacheChecked(outcome) => match outcome {
                Ok(cached) => if cached {
                    (search, SearchAction::UseCached)
                } else {
                    (search, self.go_on(search.local, search.source, uri))
                },
                Err(problem) => (search, SearchAction::Fail(problem)),
            },
            SearchEvent::Asked(answer) => match answer {
                Some(true) => (search, SearchAction::Download(search.source)),
                _ => {
                    let next = Search { source: search.source + 1, ..search };
                    (next, self.go_on(search.local, next.source, uri))
                },
            },
            SearchEvent::Downloaded(outcome) => match outcome {
                Ok(()) => if search.local {
                    (search, SearchAction::UseDownloaded)
                } else {
                    (search, SearchAction::Validate)
                },
                Err(problem) => (search, SearchAction::Fail(problem)),
            },
            SearchEvent::Validated(outcome) => match outcome {
                Ok(valid) => if valid {
                    (search, SearchAction::UseDownloaded)
                } else {
                    let next = Search { source: search.source + 1, ..search };
                    (next, self.go_on(search.local, next.source, uri))
                },
                Err(problem) => (search, SearchAction::Fail(problem)),
            },
        }
    }
}

/// A text with every `://` replaced by `_`.
pub open spec fn without_scheme_marks(text: Seq<char>) -> Seq<char>
    decreases text.len(),
{
    if text.len() == 0 {
        Seq::empty()
    } else if text.len() >= 3 && text[0] == ':' && text[1] == '/' && text[2] == '/' {
        seq!['_'] + without_scheme_marks(text.skip(3))
    } else {
        seq![text[0]] + without_scheme_marks(text.skip(1))
    }
}

/// A character of a cache key: neither kind of slash may stand in one.
pub open spec fn key_char(character: char) -> char {
    if character == '/' || character == '\\' {
        '_'
    } else {
        character
    }
}

/// The key of an adapter in the cache.
pub open spec fn cache_key(uri: Seq<char>) -> Seq<char> {
    without_scheme_marks(uri).map_values(|character: char| key_char(character))
}

/// Makes the key of an adapter in the cache.
pub fn uri_to_cache_key(uri: &str) -> (key: String)
    ensures
        key@ == cache_key(uri@),
{
    let length = uri.unicode_len();
    let mut key = String::new();
    let mut index: usize = 0;
    proof {
        assert(uri@.skip(0) =~= uri@);
        assert(Seq::<char>::empty() + cache_key(uri@) =~= cache_key(uri@));
    }
    while index < length
        invariant
            length == uri@.len(),
            index <= length,
            key@ + cache_key(uri@.skip(index as int)) =~= cache_key(uri@),
        decreases length - index,
    {
        let ghost rest = uri@.skip(index as int);
        let ghost before = key@;
        let marked = length - index >= 3 && uri.get_char(index) == ':' && uri.get_char(index + 1)
            == '/' && uri.get_char(index + 2) == '/';
        if marked {
            key.push('_');
            index += 3;
            proof {
                assert(rest.skip(3) =~= uri@.skip(index as int));
                assert(cache_key(rest) =~= seq!['_'] + cache_key(rest.skip(3)));
            }
        } else {
            let character = uri.get_char(index);
            key.push(
                if character == '/' || character == '\\' {
                    '_'
                } else {
                    character
                },
            );
            index += 1;
            proof {
                assert(rest.skip(1) =~= uri@.skip(index as int));
                assert(cache_key(rest) =~= seq![key_char(character)] + cache_key(rest.skip(1)));
            }
        }
    }
    assert(uri@.skip(index as int) =~= Seq::<char>::empty());
    assert(key@ =~= cache_key(uri@));
    key
}

/// The key of an adapter is one name: it holds no slash of either kind.
pub proof fn law_cache_key_is_one_name(uri: Seq<char>, index: int)
    requires
        0 <= index < cache_key(uri).len(),
    ensures
        cache_key(uri)[index] != '/',
        cache_key(uri)[index] != '\\',
{
}

/// The search for an adapter on this machine never touches the cache.
pub proof fn law_local_adapters_skip_the_cache(
    before: Search,
    event: SearchEvent,
    sources: nat,
    uri: Seq<char>,
    after: Search,
    action: SearchAction,
)
    requires
        continues(before, event, sources, uri, after, action),
        event is Begin ==> begins_with(uri, "file://"@),
        !(event is Begin) ==> before.local,
        !(event is CacheChecked),
        !(event is Validated),
    ensures
        after.local,
        !(action is CheckCache),
        !(action is UseCached),
        !(action is Validate),
{
}

} // verus!
