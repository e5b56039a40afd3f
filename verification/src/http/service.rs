//! The HTTP front of the models: its routes, its answers and what it measures.
use crate::text::join;
use vstd::prelude::*;

pub mod backend_errors;
pub mod buckets;
pub mod busy_threshold;
pub mod errors;
pub mod metrics;
pub mod metrics_laws;
pub mod openai;
pub mod request_ids;
pub mod responses;
pub mod service_laws;
pub mod serving;

verus! {

/// A route, for the documentation.
#[derive(Debug, Clone)]
pub struct RouteDoc {
    pub method: String,
    pub path: String,
}

impl RouteDoc {
    pub fn new(method: String, path: String) -> (doc: Self)
        ensures
            doc.method@ == method@,
            doc.path@ == path@,
    {
        RouteDoc { method, path }
    }

    /// The route in one line.
    pub fn text(&self) -> (text: String)
        ensures
            text@ == self.method@ + " "@ + self.path@,
    {
        let start = join(self.method.as_str(), " ");
        join(start.as_str(), self.path.as_str())
    }
}

/// The groups of routes that the service offers.
#[derive(Clone, Copy, Debug, PartialEq, Eq, Structural)]
pub enum Routes {
    Completions,
    ChatCompletions,
    Embeddings,
    ListModels,
    Responses,
    BusyThreshold,
    Metrics,
}

impl Routes {
    /// Where the routes are found, unless they are placed elsewhere.
    pub open spec fn default_path_text(self) -> Seq<char> {
        match self {
            Routes::Completions => "/v1/completions"@,
            Routes::ChatCompletions => "/v1/chat/completions"@,
            Routes::Embeddings => "/v1/embeddings"@,
            Routes::ListModels => "/v1/models"@,
            Routes::Responses => "/v1/responses"@,
            Routes::BusyThreshold => "/busy_threshold"@,
            Routes::Metrics => "/metrics"@,
        }
    }

    fn default_path(self) -> (path: &'static str)
        ensures
            path@ == self.default_path_text(),
    {
        match self {
            Routes::Completions => "/v1/completions",
            Routes::ChatCompletions => "/v1/chat/completions",
            Routes::Embeddings => "/v1/embeddings",
            Routes::ListModels => "/v1/models",
            Routes::Responses => "/v1/responses",
            Routes::BusyThreshold => "/busy_threshold",
            Routes::Metrics => "/metrics",
        }
    }

    /// The methods under which the routes are found, in order.
    pub open spec fn methods(self) -> Seq<Seq<char>> {
        match self {
            Routes::ListModels | Routes::Metrics => seq!["GET"@],
            Routes::BusyThreshold => seq!["POST"@, "GET"@],
            _ => seq!["POST"@],
        }
    }

    /// The path of the routes: the one that was asked for, or the usual one.
    pub fn path(self, asked: Option<String>) -> (path: String)
        ensures
            path@ == (match asked {
                Some(text) => text@,
                None => self.default_path_text(),
            }),
    {
        match asked {
            Some(text) => text,
            None => String::from_str(self.default_path()),
        }
    }

    /// The documentation of the routes at a path, one entry for each method.
    pub fn docs(self, path: &str) -> (docs: Vec<RouteDoc>)
        ensures
            docs@.len() == self.methods().len(),
            forall|i: int|
                0 <= i < docs@.len() ==> (#[trigger] docs@[i]).method@ == self.methods()[i]
                    && docs@[i].path@ == path@,
    {
        let mut docs: Vec<RouteDoc> = Vec::new();
        match self {
            Routes::ListModels | Routes::Metrics => {
                docs.push(RouteDoc::new(String::from_str("GET"), String::from_str(path)));
            },
            Routes::BusyThreshold => {
                docs.push(RouteDoc::new(String::from_str("POST"), String::from_str(path)));
                docs.push(RouteDoc::new(String::from_str("GET"), String::from_str(path)));
            },
            _ => {
                docs.push(RouteDoc::new(String::from_str("POST"), String::from_str(path)));
            },
        }
        docs
    }
}

} // verus!
