//! A model that this process serves.
use crate::http::service::openai::RequestTemplate;
use crate::http::service::request_ids::{is_uuid, new_uuid};
use crate::kv_router::scheduler::ModelRuntimeConfig;
use crate::model_card::{
    cannot_describe, describes, only_named, CardError, ModelDeploymentCard, ModelInput, RepoFiles,
};
use crate::paths::{last_part, last_part_of};
use crate::text::{copy_optional, seen, surround};
use vstd::prelude::*;

verus! {

/// The name of a model that was given none.
pub const DEFAULT_NAME: &'static str = "dynamo";

/// The size of a cache block, where nothing else is asked for.
pub const DEFAULT_KV_CACHE_BLOCK_SIZE: u32 = 16;

/// The port, where nothing else is asked for.
pub const DEFAULT_HTTP_PORT: u16 = 8080;

/// Where a model is reached.
#[derive(Clone, Debug)]
pub struct EndpointId {
    pub namespace: String,
    pub component: String,
    pub name: String,
}

/// An endpoint for use inside this machine, on which several may run: its namespace is made up.
pub fn internal_endpoint(engine: &str) -> (endpoint: EndpointId)
    ensures
        is_uuid(endpoint.namespace@),
        endpoint.component@ == engine@,
        endpoint.name@ == "generate"@,
{
    EndpointId {
        namespace: new_uuid(),
        component: String::from_str(engine),
        name: String::from_str("generate"),
    }
}

/// What a mock engine was told about itself.
#[derive(Clone, Copy, Debug, PartialEq, Eq, Structural)]
pub struct MockerOverrides {
    pub block_size: u32,
    pub num_gpu_blocks: u64,
    pub max_num_seqs: Option<u64>,
    pub max_num_batched_tokens: Option<u64>,
    pub dp_size: u32,
}

/// Collects what is asked of a model.
#[derive(Debug)]
pub struct LocalModelBuilder {
    pub model_path: Option<String>,
    pub model_name: Option<String>,
    pub endpoint_id: Option<EndpointId>,
    pub context_length: Option<u32>,
    pub template_file: Option<String>,
    pub kv_cache_block_size: u32,
    pub http_host: Option<String>,
    pub http_port: u16,
    pub tls_cert_path: Option<String>,
    pub tls_key_path: Option<String>,
    pub migration_limit: u32,
    pub is_mocker: bool,
    pub extra_engine_args: Option<String>,
    pub runtime_config: ModelRuntimeConfig,
    pub custom_template_path: Option<String>,
    pub namespace: Option<String>,
    pub custom_backend_metrics_endpoint: Option<String>,
    /// How often the backend's metrics are fetched, as the bits of a number of seconds.
    pub custom_backend_metrics_polling_interval: Option<u64>,
    /// What the user keeps with the model, as JSON.
    pub user_data: Option<String>,
}

impl Default for LocalModelBuilder {
    fn default() -> (builder: Self)
        ensures
            builder == (LocalModelBuilder {
                model_path: None,
                model_name: None,
                endpoint_id: None,
                context_length: None,
                template_file: None,
                kv_cache_block_size: 16,
                http_host: None,
                http_port: 8080,
                tls_cert_path: None,
                tls_key_path: None,
                migration_limit: 0,
                is_mocker: false,
                extra_engine_args: None,
                runtime_config: builder.runtime_config,
                custom_template_path: None,
                namespace: None,
                custom_backend_metrics_endpoint: None,
                custom_backend_metrics_polling_interval: None,
                user_data: None,
            }),
            builder.runtime_config == crate::model_card::unreported(),
    {
        LocalModelBuilder {
            model_path: None,
            model_name: None,
            endpoint_id: None,
            context_length: None,
            template_file: None,
            kv_cache_block_size: DEFAULT_KV_CACHE_BLOCK_SIZE,
            http_host: None,
            http_port: DEFAULT_HTTP_PORT,
            tls_cert_path: None,
            tls_key_path: None,
            migration_limit: 0,
            is_mocker: false,
            extra_engine_args: None,
            runtime_config: ModelRuntimeConfig::default(),
            custom_template_path: None,
            namespace: None,
            custom_backend_metrics_endpoint: None,
            custom_backend_metrics_polling_interval: None,
            user_data: None,
        }
    }
}

/// A model on this machine: whether its path is there, the path in full, and what was found at it.
#[derive(Debug)]
pub struct FoundModel {
    pub exists: bool,
    pub full_path: Result<String, String>,
    /// Whether the full path is that of a directory; it may be gone by now.
    pub still_there: bool,
    pub is_dir: bool,
    pub files: RepoFiles,
}

/// Why a model cannot be served.
#[derive(Debug)]
pub enum BuildError {
    /// There is nothing at the path.
    NoPath(String),
    /// The path has no full form.
    Unresolved(String),
    /// The card cannot be made.
    Card(CardError),
}

/// Whether an error is the one for which a model at a path is not served.
pub open spec fn refuses(found: FoundModel, path: Seq<char>, error: BuildError) -> bool {
    if !found.exists {
        error matches BuildError::NoPath(message) && message@ == "Path does not exist: '"@ + path
            + "'. Use LocalModel::fetch to download it."@
    } else {
        match found.full_path {
            Err(cause) => error matches BuildError::Unresolved(problem) && problem@ == cause@,
            Ok(full_path) => error matches BuildError::Card(problem) && (if !found.still_there {
                problem matches CardError::NoPath(message) && message@
                    == "Model path does not exist: "@ + full_path@
            } else if !found.is_dir {
                problem matches CardError::NotADirectory(message) && message@
                    == "Model path is not a directory: "@ + full_path@
            } else {
                cannot_describe(full_path@, found.files, problem)
            }),
        }
    }
}

/// A model that this process serves.
#[derive(Debug)]
pub struct LocalModel {
    pub full_path: String,
    pub card: ModelDeploymentCard,
    pub endpoint_id: EndpointId,
    pub template: Option<RequestTemplate>,
    pub http_host: Option<String>,
    pub http_port: u16,
    pub tls_cert_path: Option<String>,
    pub tls_key_path: Option<String>,
    pub runtime_config: ModelRuntimeConfig,
    pub namespace: Option<String>,
    pub custom_backend_metrics_endpoint: Option<String>,
    /// How often the backend's metrics are fetched, as the bits of a number of seconds.
    pub custom_backend_metrics_polling_interval: Option<u64>,
}

impl LocalModelBuilder {
    pub fn model_path(&mut self, model_path: String) -> (builder: &mut Self)
        ensures
            *builder == (LocalModelBuilder { model_path: Some(model_path), ..*old(self) }),
            *final(self) == *final(builder),
    {
        self.model_path = Some(model_path);
        self
    }

    pub fn model_name(&mut self, model_name: Option<String>) -> (builder: &mut Self)
        ensures
            *builder == (LocalModelBuilder { model_name, ..*old(self) }),
            *final(self) == *final(builder),
    {
        self.model_name = model_name;
        self
    }

    pub fn endpoint_id(&mut self, endpoint_id: Option<EndpointId>) -> (builder: &mut Self)
        ensures
            *builder == (LocalModelBuilder { endpoint_id, ..*old(self) }),
            *final(self) == *final(builder),
    {
        self.endpoint_id = endpoint_id;
        self
    }

    pub fn context_length(&mut self, context_length: Option<u32>) -> (builder: &mut Self)
        ensures
            *builder == (LocalModelBuilder { context_length, ..*old(self) }),
            *final(self) == *final(builder),
    {
        self.context_length = context_length;
        self
    }

    /// Nothing stands for the usual size.
    pub fn kv_cache_block_size(&mut self, kv_cache_block_size: Option<u32>) -> (builder: &mut Self)
        ensures
            *builder == (LocalModelBuilder {
                kv_cache_block_size: match kv_cache_block_size {
                    Some(size) => size,
                    None => 16,
                },
                ..*old(self)
            }),
            *final(self) == *final(builder),
    {
        self.kv_cache_block_size = match kv_cache_block_size {
            Some(size) => size,
            None => DEFAULT_KV_CACHE_BLOCK_SIZE,
        };
        self
    }

    pub fn http_host(&mut self, host: Option<String>) -> (builder: &mut Self)
        ensures
            *builder == (LocalModelBuilder { http_host: host, ..*old(self) }),
            *final(self) == *final(builder),
    {
        self.http_host = host;
        self
    }

    pub fn http_port(&mut self, port: u16) -> (builder: &mut Self)
        ensures
            *builder == (LocalModelBuilder { http_port: port, ..*old(self) }),
            *final(self) == *final(builder),
    {
        self.http_port = port;
        self
    }

    pub fn tls_cert_path(&mut self, p: Option<String>) -> (builder: &mut Self)
        ensures
            *builder == (LocalModelBuilder { tls_cert_path: p, ..*old(self) }),
            *final(self) == *final(builder),
    {
        self.tls_cert_path = p;
        self
    }

    pub fn tls_key_path(&mut self, p: Option<String>) -> (builder: &mut Self)
        ensures
            *builder == (LocalModelBuilder { tls_key_path: p, ..*old(self) }),
            *final(self) == *final(builder),
    {
        self.tls_key_path = p;
        self
    }

    pub fn namespace(&mut self, namespace: Option<String>) -> (builder: &mut Self)
        ensures
            *builder == (LocalModelBuilder { namespace, ..*old(self) }),
            *final(self) == *final(builder),
    {
        self.namespace = namespace;
        self
    }

    pub fn request_template(&mut self, template_file: Option<String>) -> (builder: &mut Self)
        ensures
            *builder == (LocalModelBuilder { template_file, ..*old(self) }),
            *final(self) == *final(builder),
    {
        self.template_file = template_file;
        self
    }

    pub fn custom_template_path(&mut self, custom_template_path: Option<String>) -> (builder:
        &mut Self)
        ensures
            *builder == (LocalModelBuilder { custom_template_path, ..*old(self) }),
            *final(self) == *final(builder),
    {
        self.custom_template_path = custom_template_path;
        self
    }

    /// Nothing stands for no migration at all.
    pub fn migration_limit(&mut self, migration_limit: Option<u32>) -> (builder: &mut Self)
        ensures
            *builder == (LocalModelBuilder {
                migration_limit: match migration_limit {
                    Some(limit) => limit,
                    None => 0,
                },
                ..*old(self)
            }),
            *final(self) == *final(builder),
    {
        self.migration_limit = match migration_limit {
            Some(limit) => limit,
            None => 0,
        };
        self
    }

    pub fn is_mocker(&mut self, is_mocker: bool) -> (builder: &mut Self)
        ensures
            *builder == (LocalModelBuilder { is_mocker, ..*old(self) }),
            *final(self) == *final(builder),
    {
        self.is_mocker = is_mocker;
        self
    }

    pub fn extra_engine_args(&mut self, extra_engine_args: Option<String>) -> (builder: &mut Self)
        ensures
            *builder == (LocalModelBuilder { extra_engine_args, ..*old(self) }),
            *final(self) == *final(builder),
    {
        self.extra_engine_args = extra_engine_args;
        self
    }

    pub fn runtime_config(&mut self, runtime_config: ModelRuntimeConfig) -> (builder: &mut Self)
        ensures
            *builder == (LocalModelBuilder { runtime_config, ..*old(self) }),
            *final(self) == *final(builder),
    {
        self.runtime_config = runtime_config;
        self
    }

    pub fn custom_backend_metrics_endpoint(&mut self, endpoint: Option<String>) -> (builder:
        &mut Self)
        ensures
            *builder == (LocalModelBuilder {
                custom_backend_metrics_endpoint: endpoint,
                ..*old(self)
            }),
            *final(self) == *final(builder),
    {
        self.custom_backend_metrics_endpoint = endpoint;
        self
    }

    /// Keeps the interval as the bits of a number of seconds.
    pub fn custom_backend_metrics_polling_interval(&mut self, interval: Option<u64>) -> (builder:
        &mut Self)
        ensures
            *builder == (LocalModelBuilder {
                custom_backend_metrics_polling_interval: interval,
                ..*old(self)
            }),
            *final(builder) == *final(self),
    {
        self.custom_backend_metrics_polling_interval = interval;
        self
    }

    /// Keeps what the user gives, as JSON.
    pub fn user_data(&mut self, user_data: Option<String>) -> (builder: &mut Self)
        ensures
            *builder == (LocalModelBuilder { user_data, ..*old(self) }),
            *final(builder) == *final(self),
    {
        self.user_data = user_data;
        self
    }

    /// The file with what a mock engine is told about itself, where one is read.
    pub fn mocker_args_path(&self) -> (path: Option<String>)
        ensures
            seen(path) == (if self.is_mocker {
                seen(self.extra_engine_args)
            } else {
                None
            }),
    {
        if self.is_mocker {
            copy_optional(&self.extra_engine_args)
        } else {
            None
        }
    }

    /// What is asked of the model once a mock engine's own settings were taken over.
    pub open spec fn overridden(self, mocker: Option<MockerOverrides>) -> Self {
        match mocker {
            Some(args) => LocalModelBuilder {
                kv_cache_block_size: args.block_size,
                runtime_config: ModelRuntimeConfig {
                    total_kv_blocks: Some(args.num_gpu_blocks),
                    max_num_seqs: args.max_num_seqs,
                    max_num_batched_tokens: args.max_num_batched_tokens,
                    data_parallel_size: args.dp_size,
                },
                ..self
            },
            None => self,
        }
    }

    /// What is left in the builder after it was used. What only one model can have is gone.
    pub open spec fn used(self, mocker: Option<MockerOverrides>, built: bool) -> Self {
        let rest = LocalModelBuilder {
            endpoint_id: None,
            model_path: None,
            ..self.overridden(mocker)
        };
        if built {
            LocalModelBuilder {
                http_host: None,
                tls_cert_path: None,
                tls_key_path: None,
                user_data: None,
                ..rest
            }
        } else {
            rest
        }
    }

    /// Whether a model has what this asks for, but for what comes from its files.
    pub open spec fn fits(self, model: LocalModel, template: Option<RequestTemplate>) -> bool {
        &&& match self.endpoint_id {
            Some(endpoint) => model.endpoint_id == endpoint,
            None => is_uuid(model.endpoint_id.namespace@) && model.endpoint_id.component@
                == "local_model"@ && model.endpoint_id.name@ == "generate"@,
        }
        &&& model.template == template
        &&& model.http_host == self.http_host
        &&& model.http_port == self.http_port
        &&& model.tls_cert_path == self.tls_cert_path
        &&& model.tls_key_path == self.tls_key_path
        &&& model.runtime_config == self.runtime_config
        &&& seen(model.namespace) == seen(self.namespace)
        &&& seen(model.custom_backend_metrics_endpoint) == seen(
            self.custom_backend_metrics_endpoint,
        )
        &&& model.custom_backend_metrics_polling_interval
            == self.custom_backend_metrics_polling_interval
        &&& model.card.user_data == self.user_data
        &&& model.card.kv_cache_block_size == self.kv_cache_block_size
        &&& model.card.migration_limit == self.migration_limit
        &&& model.card.runtime_config == self.runtime_config
    }

    /// Whether a card is the one that this asks for, for a model without files.
    pub open spec fn names(self, card: ModelDeploymentCard) -> bool {
        only_named(
            ModelDeploymentCard {
                kv_cache_block_size: 0,
                migration_limit: 0,
                user_data: None,
                ..card
            },
            match self.model_name {
                Some(name) => name@,
                None => "dynamo"@,
            },
        )
    }

    /// Whether a card is the one that this asks for, for a model at a path.
    pub open spec fn loads(self, card: ModelDeploymentCard, path: Seq<char>, files: RepoFiles) -> bool {
        &&& card.display_name@ == (match self.model_name {
            Some(name) => name@,
            None => last_part(path),
        })
        &&& exists|loaded: ModelDeploymentCard|
            {
                &&& #[trigger] describes(loaded, path, files)
                &&& card.context_length == (match self.context_length {
                    Some(length) => length,
                    None => loaded.context_length,
                })
                &&& card == (ModelDeploymentCard {
                    display_name: card.display_name,
                    kv_cache_block_size: card.kv_cache_block_size,
                    context_length: card.context_length,
                    migration_limit: card.migration_limit,
                    runtime_config: card.runtime_config,
                    user_data: card.user_data,
                    ..loaded
                })
            }
    }

    fn finish(
        &mut self,
        card: ModelDeploymentCard,
        full_path: String,
        endpoint_id: EndpointId,
        template: Option<RequestTemplate>,
    ) -> (model: LocalModel)
        ensures
            model.full_path == full_path,
            model.endpoint_id == endpoint_id,
            model.template == template,
            model.card == (ModelDeploymentCard {
                kv_cache_block_size: old(self).kv_cache_block_size,
                migration_limit: old(self).migration_limit,
                runtime_config: old(self).runtime_config,
                user_data: old(self).user_data,
                ..card
            }),
            model.http_host == old(self).http_host,
            model.http_port == old(self).http_port,
            model.tls_cert_path == old(self).tls_cert_path,
            model.tls_key_path == old(self).tls_key_path,
            model.runtime_config == old(self).runtime_config,
            seen(model.namespace) == seen(old(self).namespace),
            seen(model.custom_backend_metrics_endpoint) == seen(
                old(self).custom_backend_metrics_endpoint,
            ),
            model.custom_backend_metrics_polling_interval == old(
                self,
            ).custom_backend_metrics_polling_interval,
            *final(self) == (LocalModelBuilder {
                http_host: None,
                tls_cert_path: None,
                tls_key_path: None,
                user_data: None,
                ..*old(self)
            }),
    {
        let mut card = card;
        card.kv_cache_block_size = self.kv_cache_block_size;
        card.migration_limit = self.migration_limit;
        card.runtime_config = self.runtime_config;
        card.user_data = self.user_data.take();
        LocalModel {
            full_path,
            card,
            endpoint_id,
            template,
            http_host: self.http_host.take(),
            http_port: self.http_port,
            tls_cert_path: self.tls_cert_path.take(),
            tls_key_path: self.tls_key_path.take(),
            runtime_config: self.runtime_config,
            namespace: copy_optional(&self.namespace),
            custom_backend_metrics_endpoint: copy_optional(&self.custom_backend_metrics_endpoint),
            custom_backend_metrics_polling_interval: self.custom_backend_metrics_polling_interval,
        }
    }

    /// Makes a model ready for use. `template` and `mocker` are what the files that this names
    /// hold, `found` is what is at the model's path. A model without a path has only a name; a
    /// model with one is named after the last part of the path, unless it is given a name.
    pub fn build(
        &mut self,
        template: Option<RequestTemplate>,
        mocker: Option<MockerOverrides>,
        found: Option<FoundModel>,
    ) -> (built: Result<LocalModel, BuildError>)
        requires
            old(self).model_path is Some ==> found is Some,
        ensures
            *final(self) == old(self).used(mocker, built is Ok),
            match built {
                Ok(model) => {
                    &&& old(self).overridden(mocker).fits(model, template)
                    &&& match old(self).model_path {
                        None => model.full_path@.len() == 0 && old(self).names(model.card),
                        Some(_) => {
                            let found = found->Some_0;
                            &&& found.exists && found.still_there && found.is_dir
                            &&& found.full_path matches Ok(path) && model.full_path@ == path@
                            &&& old(self).loads(model.card, model.full_path@, found.files)
                        },
                    }
                },
                Err(error) => old(self).model_path matches Some(path) && refuses(
                    found->Some_0,
                    path@,
                    error,
                ),
            },
    {
        let endpoint_id = match self.endpoint_id.take() {
            Some(endpoint) => endpoint,
            None => internal_endpoint("local_model"),
        };
        if let Some(args) = mocker {
            self.kv_cache_block_size = args.block_size;
            self.runtime_config = ModelRuntimeConfig {
                total_kv_blocks: Some(args.num_gpu_blocks),
                max_num_seqs: args.max_num_seqs,
                max_num_batched_tokens: args.max_num_batched_tokens,
                data_parallel_size: args.dp_size,
            };
        }
        let (model_path, found) = match (self.model_path.take(), found) {
            (Some(path), Some(found)) => (path, found),
            _ => {
                let card = match &self.model_name {
                    Some(name) => ModelDeploymentCard::with_name_only(name.as_str()),
                    None => ModelDeploymentCard::with_name_only(DEFAULT_NAME),
                };
                return Ok(self.finish(card, String::new(), endpoint_id, template));
            },
        };
        if !found.exists {
            return Err(
                BuildError::NoPath(
                    surround(
                        "Path does not exist: '",
                        model_path.as_str(),
                        "'. Use LocalModel::fetch to download it.",
                    ),
                ),
            );
        }
        let full_path = match found.full_path {
            Ok(path) => path,
            Err(problem) => {
                return Err(BuildError::Unresolved(problem));
            },
        };
        if let Err(problem) = crate::model_card::check_valid_local_repo_path(
            full_path.as_str(),
            found.still_there,
            found.is_dir,
        ) {
            return Err(BuildError::Card(problem));
        }
        let mut card = match ModelDeploymentCard::from_repo_checkout(
            full_path.as_str(),
            found.files,
        ) {
            Ok(card) => card,
            Err(problem) => {
                return Err(BuildError::Card(problem));
            },
        };
        let ghost loaded = card;
        match &self.model_name {
            Some(name) => card.set_name(name.as_str()),
            None => card.set_name(last_part_of(full_path.as_str()).as_str()),
        }
        if let Some(context_length) = self.context_length {
            card.context_length = context_length;
        }
        let model = self.finish(card, full_path, endpoint_id, template);
        assert(describes(loaded, model.full_path@, found.files));
        Ok(model)
    }
}

impl LocalModel {
    pub fn card(&self) -> (card: &ModelDeploymentCard)
        ensures
            *card == self.card,
    {
        &self.card
    }

    pub fn path(&self) -> (path: &str)
        ensures
            path@ == self.full_path@,
    {
        self.full_path.as_str()
    }

    pub fn display_name(&self) -> (name: &str)
        ensures
            name@ == self.card.display_name@,
    {
        self.card.display_name.as_str()
    }

    pub fn request_template(&self) -> (template: Option<RequestTemplate>)
        ensures
            match (self.template, template) {
                (Some(own), Some(copy)) => copy.model@ == own.model@ && copy.max_completion_tokens
                    == own.max_completion_tokens,
                (None, None) => true,
                _ => false,
            },
    {
        match &self.template {
            Some(template) => Some(
                RequestTemplate {
                    model: String::from_str(template.model.as_str()),
                    max_completion_tokens: template.max_completion_tokens,
                },
            ),
            None => None,
        }
    }

    pub fn http_host(&self) -> (host: Option<String>)
        ensures
            seen(host) == seen(self.http_host),
    {
        copy_optional(&self.http_host)
    }

    pub fn http_port(&self) -> (port: u16)
        ensures
            port == self.http_port,
    {
        self.http_port
    }

    pub fn tls_cert_path(&self) -> (path: Option<String>)
        ensures
            seen(path) == seen(self.tls_cert_path),
    {
        copy_optional(&self.tls_cert_path)
    }

    pub fn tls_key_path(&self) -> (path: Option<String>)
        ensures
            seen(path) == seen(self.tls_key_path),
    {
        copy_optional(&self.tls_key_path)
    }

    pub fn runtime_config(&self) -> (config: &ModelRuntimeConfig)
        ensures
            *config == self.runtime_config,
    {
        &self.runtime_config
    }

    pub fn namespace(&self) -> (namespace: Option<String>)
        ensures
            seen(namespace) == seen(self.namespace),
    {
        copy_optional(&self.namespace)
    }

    pub fn custom_backend_metrics_endpoint(&self) -> (endpoint: Option<String>)
        ensures
            seen(endpoint) == seen(self.custom_backend_metrics_endpoint),
    {
        copy_optional(&self.custom_backend_metrics_endpoint)
    }

    pub fn custom_backend_metrics_polling_interval(&self) -> (interval: Option<u64>)
        ensures
            interval == self.custom_backend_metrics_polling_interval,
    {
        self.custom_backend_metrics_polling_interval
    }

    /// Where the model is reached.
    pub fn endpoint_id(&self) -> (endpoint: &EndpointId)
        ensures
            *endpoint == self.endpoint_id,
    {
        &self.endpoint_id
    }

    /// The card, for those who need no more of the model.
    pub fn into_card(self) -> (card: ModelDeploymentCard)
        ensures
            card == self.card,
    {
        self.card
    }

    /// Takes note of what the model's engine is given, before the model is announced.
    pub fn attach(&mut self, model_input: ModelInput)
        ensures
            *final(self) == (LocalModel {
                card: ModelDeploymentCard { model_input, ..old(self).card },
                ..*old(self)
            }),
    {
        self.card.model_input = model_input;
    }
}

} // verus!
