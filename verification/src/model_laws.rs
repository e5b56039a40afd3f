//! What building a model that is served here keeps to.
use crate::http::service::openai::RequestTemplate;
use crate::local_model::{
    BuildError, FoundModel, LocalModel, LocalModelBuilder, MockerOverrides,
};
use crate::model_card::{CardError, ModelDeploymentCard, ModelInput};
use crate::paths::last_part_of;
use vstd::prelude::*;

verus! {

/// A model that has no path is known by its name, or else by the usual one; nothing is read for it.
pub proof fn law_models_without_a_path_have_their_name_only(
    builder: &mut LocalModelBuilder,
    template: Option<RequestTemplate>,
    mocker: Option<MockerOverrides>,
    found: Option<FoundModel>,
    built: Result<LocalModel, BuildError>,
)
    requires
        old(builder).model_path is None,
        call_ensures(LocalModelBuilder::build, (builder, template, mocker, found), built),
    ensures
        built matches Ok(model) && {
            &&& model.full_path@.len() == 0
            &&& old(builder).model_name matches Some(name) ==> model.card.display_name@ == name@
            &&& old(builder).model_name is None ==> model.card.display_name@ == "dynamo"@
            &&& model.card.context_length == 0
            &&& model.card.checksum is None
        },
{
}

/// A model at a path is built exactly where the path is there, can be followed to a directory, and
/// the directory can be described. It is known by its name, or else by the last part of its full
/// path, and has the context that is asked for.
pub proof fn law_models_at_a_path_are_read_from_it(
    builder: &mut LocalModelBuilder,
    template: Option<RequestTemplate>,
    mocker: Option<MockerOverrides>,
    found: FoundModel,
    built: Result<LocalModel, BuildError>,
    path: &str,
    part: String,
)
    requires
        old(builder).model_path is Some,
        call_ensures(LocalModelBuilder::build, (builder, template, mocker, Some(found)), built),
        found.full_path matches Ok(full) ==> path@ == full@,
        call_ensures(last_part_of, (path,), part),
    ensures
        !found.exists ==> (built matches Err(error) && error is NoPath),
        found.exists && found.full_path is Err ==> (built matches Err(error)
            && error is Unresolved),
        !(found.still_there && found.is_dir) ==> built is Err,
        built matches Ok(model) ==> {
            &&& model.full_path@ == path@
            &&& old(builder).model_name matches Some(name) ==> model.card.display_name@ == name@
            &&& old(builder).model_name is None ==> model.card.display_name@ == part@
            &&& old(builder).context_length matches Some(length) ==> model.card.context_length
                == length
            &&& old(builder).context_length is None ==> (
            found.files.max_position_embeddings matches Some(length) ==> model.card.context_length
                == length)
            &&& found.files.config is Ok && found.files.tokenizer is Ok
            &&& model.card.model_info is Some && model.card.tokenizer is Some
        },
{
}

/// What the builder was told is what the model has: where it is served and how. A mock engine's own
/// numbers replace those of the builder, in the model and in its card.
pub proof fn law_models_have_what_their_builder_was_told(
    builder: &mut LocalModelBuilder,
    template: Option<RequestTemplate>,
    mocker: Option<MockerOverrides>,
    found: Option<FoundModel>,
    model: LocalModel,
)
    requires
        call_ensures(LocalModelBuilder::build, (builder, template, mocker, found), Ok(model)),
    ensures
        model.template == template,
        model.http_host == old(builder).http_host,
        model.http_port == old(builder).http_port,
        model.tls_cert_path == old(builder).tls_cert_path,
        model.tls_key_path == old(builder).tls_key_path,
        model.card.migration_limit == old(builder).migration_limit,
        model.card.user_data == old(builder).user_data,
        model.custom_backend_metrics_polling_interval
            == old(builder).custom_backend_metrics_polling_interval,
        old(builder).namespace matches Some(given) ==> (model.namespace matches Some(kept) && kept@
            == given@),
        old(builder).namespace is None ==> model.namespace is None,
        old(builder).endpoint_id matches Some(given) ==> model.endpoint_id == given,
        old(builder).endpoint_id is None ==> model.endpoint_id.component@ == "local_model"@
            && model.endpoint_id.name@ == "generate"@,
        model.card.runtime_config == model.runtime_config,
        mocker is None ==> model.card.kv_cache_block_size == old(builder).kv_cache_block_size
            && model.runtime_config == old(builder).runtime_config,
        mocker matches Some(args) ==> {
            &&& model.card.kv_cache_block_size == args.block_size
            &&& model.runtime_config.total_kv_blocks == Some(args.num_gpu_blocks)
            &&& model.runtime_config.max_num_seqs == args.max_num_seqs
            &&& model.runtime_config.max_num_batched_tokens == args.max_num_batched_tokens
            &&& model.runtime_config.data_parallel_size == args.dp_size
        },
{
}

/// Arguments for a mock engine are read only where there is one.
pub proof fn law_only_mock_engines_read_their_arguments(
    builder: &LocalModelBuilder,
    path: Option<String>,
)
    requires
        call_ensures(LocalModelBuilder::mocker_args_path, (builder,), path),
    ensures
        !builder.is_mocker ==> path is None,
        builder.is_mocker ==> (builder.extra_engine_args matches Some(given) ==> (
        path matches Some(path) && path@ == given@)),
        builder.extra_engine_args is None ==> path is None,
{
}

/// Attaching a model sets what it takes as input, and nothing else.
pub proof fn law_attaching_sets_the_input(model: &mut LocalModel, input: ModelInput, needs: bool)
    requires
        call_ensures(LocalModel::attach, (model, input), ()),
        call_ensures(ModelDeploymentCard::requires_preprocessing, (&final(model).card,), needs),
    ensures
        final(model).card.model_input == input,
        needs <==> input == ModelInput::Tokens,
        final(model).card.display_name == old(model).card.display_name,
        final(model).full_path == old(model).full_path,
        final(model).endpoint_id == old(model).endpoint_id,
        final(model).runtime_config == old(model).runtime_config,
{
}

/// A builder that was used gives up the path and the endpoint that it was told, and where it built a
/// model also what it handed over; what a mock engine set stays set, and so does everything else.
pub proof fn law_used_builders_give_up_what_they_handed_over(
    builder: &mut LocalModelBuilder,
    template: Option<RequestTemplate>,
    mocker: Option<MockerOverrides>,
    found: Option<FoundModel>,
    built: Result<LocalModel, BuildError>,
)
    requires
        call_ensures(LocalModelBuilder::build, (builder, template, mocker, found), built),
    ensures
        final(builder).model_path is None,
        final(builder).endpoint_id is None,
        built is Ok ==> final(builder).http_host is None && final(builder).tls_cert_path is None
            && final(builder).tls_key_path is None && final(builder).user_data is None,
        built is Err ==> final(builder).http_host == old(builder).http_host
            && final(builder).user_data == old(builder).user_data,
        final(builder).model_name == old(builder).model_name,
        final(builder).context_length == old(builder).context_length,
        final(builder).http_port == old(builder).http_port,
        final(builder).namespace == old(builder).namespace,
        final(builder).migration_limit == old(builder).migration_limit,
        mocker is None ==> final(builder).kv_cache_block_size == old(builder).kv_cache_block_size
            && final(builder).runtime_config == old(builder).runtime_config,
        mocker matches Some(args) ==> final(builder).kv_cache_block_size == args.block_size,
{
}

/// Blocks have the size that is asked for, or else sixteen tokens, and requests are moved as often
/// as is asked for, or else not at all; nothing else changes.
pub proof fn law_sizes_and_limits_have_usual_values(
    sized: &mut LocalModelBuilder,
    size: Option<u32>,
    with_size: &mut LocalModelBuilder,
    limited: &mut LocalModelBuilder,
    limit: Option<u32>,
    with_limit: &mut LocalModelBuilder,
)
    requires
        call_ensures(LocalModelBuilder::kv_cache_block_size, (sized, size), with_size),
        call_ensures(LocalModelBuilder::migration_limit, (limited, limit), with_limit),
    ensures
        size matches Some(tokens) ==> old(with_size).kv_cache_block_size == tokens,
        size is None ==> old(with_size).kv_cache_block_size == 16,
        old(with_size).migration_limit == old(sized).migration_limit,
        old(with_size).context_length == old(sized).context_length,
        old(with_size).model_name == old(sized).model_name,
        limit matches Some(times) ==> old(with_limit).migration_limit == times,
        limit is None ==> old(with_limit).migration_limit == 0,
        old(with_limit).kv_cache_block_size == old(limited).kv_cache_block_size,
        old(with_limit).context_length == old(limited).context_length,
        old(with_limit).model_name == old(limited).model_name,
{
}

/// What keeps a model from being built is told with its path.
pub proof fn law_models_that_are_not_there_are_told(
    builder: &mut LocalModelBuilder,
    template: Option<RequestTemplate>,
    mocker: Option<MockerOverrides>,
    found: FoundModel,
    error: BuildError,
)
    requires
        old(builder).model_path is Some,
        call_ensures(
            LocalModelBuilder::build,
            (builder, template, mocker, Some(found)),
            Err(error),
        ),
    ensures
        error matches BuildError::NoPath(message) ==> message@ == "Path does not exist: '"@ + old(
            builder).model_path->Some_0@ + "'. Use LocalModel::fetch to download it."@,
        error matches BuildError::Unresolved(problem) ==> (found.full_path matches Err(cause)
            && problem@ == cause@),
        error matches BuildError::Card(CardError::NoPath(message)) ==> (
        found.full_path matches Ok(full) && (!found.still_there ==> message@
            == "Model path does not exist: "@ + full@)),
        error matches BuildError::Card(CardError::NotADirectory(message)) ==> (
        found.full_path matches Ok(full) && (found.still_there && !found.is_dir ==> message@
            == "Model path is not a directory: "@ + full@)),
{
}

} // verus!
