use dynamo_llm::http::service::openai::RequestTemplate;
use dynamo_llm::json_errors::{
    field_problem_message, file_json_field, json_error_report, lines, FieldProblem,
};
use dynamo_llm::kv_router::scheduler::ModelRuntimeConfig;
use dynamo_llm::local_model::{
    BuildError, EndpointId, FoundModel, LocalModelBuilder, MockerOverrides, DEFAULT_HTTP_PORT,
};
use dynamo_llm::model_card::artifacts::{
    CheckedFile, FileLocation, GenerationConfig, ModelInfoType, PromptFormatterArtifact,
    TokenizerKind,
};
use dynamo_llm::model_card::hf_config::{
    read_tokens, ConfigError, ConfigFiles, HFConfig, HFTextConfig, ModelInfo, TokenField,
};
use dynamo_llm::model_card::{
    check_valid_local_repo_path, CardError, CustomTemplate, ModelDeploymentCard, ModelInput,
    PromptContextMixin, RepoFiles, TokenizerError,
};

fn file(name: &str) -> CheckedFile {
    CheckedFile {
        file_name: name.to_string(),
        location: FileLocation::Path(format!("/models/m/{}", name)),
        checksum: format!("blake3:{}", name),
    }
}

fn remote(name: &str) -> CheckedFile {
    CheckedFile { location: FileLocation::Url(format!("https://h/{}", name)), ..file(name) }
}

fn text_config(bos: Option<u32>, eos: Option<TokenField>) -> HFTextConfig {
    HFTextConfig {
        bos_token_id: bos,
        eos_token_id: eos,
        max_position_embeddings: Some(131072),
        vocab_size: Some(128256),
    }
}

fn config_files(text: HFTextConfig) -> ConfigFiles {
    ConfigFiles {
        model_type: "llama".to_string(),
        text_config: None,
        top_level: text,
        eos_token_id: None,
        generation_bos_token_id: None,
        generation_eos_token_id: None,
    }
}

fn repo() -> RepoFiles {
    RepoFiles {
        max_position_embeddings: Some(8192),
        model_max_length: Some(4096),
        custom_template: None,
        config: Ok(file("config.json")),
        tokenizer: Ok(file("tokenizer.json")),
        generation_config: Err("missing".to_string()),
        tokenizer_config: Ok(file("tokenizer_config.json")),
        chat_template: Err("missing".to_string()),
    }
}

#[test]
fn test_config_json_llama3() {
    let eos = TokenField::List(vec![Some(128001), Some(128008), Some(128009)]);
    let config = HFConfig::from_files(config_files(text_config(Some(128000), Some(eos)))).unwrap();
    assert_eq!(config.bos_token_id(), 128000);
    assert_eq!(config.eos_token_ids(), vec![128001, 128008, 128009]);
    assert_eq!(config.model_type(), "llama");
    assert_eq!(config.max_position_embeddings(), Some(131072));
    assert_eq!(config.vocab_size(), Some(128256));
}

#[test]
fn test_config_json_llama4() {
    let mut files = config_files(text_config(None, None));
    files.text_config = Some(text_config(Some(200000), None));
    files.eos_token_id = Some(TokenField::Number(Some(200001)));
    let config = HFConfig::from_files(files).unwrap();
    assert_eq!(config.bos_token_id(), 200000);
    assert_eq!(config.eos_token_ids(), vec![200001]);
}

#[test]
fn tokens_are_looked_for_in_the_generation_config_last() {
    let files = config_files(text_config(None, Some(TokenField::Other)));
    assert_eq!(
        HFConfig::from_files(files.clone()).unwrap_err(),
        ConfigError::MissingBosToken
    );
    let mut files = files;
    files.generation_bos_token_id = Some(1);
    let error = HFConfig::from_files(files.clone()).unwrap_err();
    assert_eq!(error, ConfigError::MissingEosToken);
    assert_eq!(
        error.message(),
        "missing eos_token_id in config.json and generation_config.json, cannot load"
    );
    files.generation_eos_token_id =
        Some(TokenField::List(vec![Some(2), None, Some(0x1_0000_0003)]));
    let config = HFConfig::from_files(files).unwrap();
    assert_eq!(config.bos_token_id(), 1);
    assert_eq!(config.eos_token_ids(), vec![2, 3]);
    assert_eq!(read_tokens(&Some(TokenField::Number(None))), None);
}

#[test]
fn model_info_is_read_from_local_files_only() {
    let files = || config_files(text_config(Some(1), Some(TokenField::Number(Some(2)))));
    let local = ModelInfoType::HfConfigJson(file("config.json"));
    assert_eq!(local.config_path().unwrap(), "/models/m/config.json");
    assert_eq!(local.get_model_info(files()).unwrap().bos_token_id(), 1);
    let away = ModelInfoType::HfConfigJson(remote("config.json"));
    let message = away.get_model_info(files()).unwrap_err().message();
    assert_eq!(
        message,
        "model info is not a local path: CheckedFile { file_name: \"config.json\", location: \
         Url(\"https://h/config.json\"), checksum: \"blake3:config.json\" }"
    );
    let config = remote("config.json");
    assert_eq!(message, format!("model info is not a local path: {config:?}"));
    let odd = file("a\"\n\u{7}");
    assert_eq!(odd.shown(), format!("{odd:?}"));
}

#[test]
fn cards_are_made_from_a_checkout() {
    let mut card = ModelDeploymentCard::from_repo_checkout("/models/m", repo()).unwrap();
    assert_eq!(card.name(), "/models/m");
    assert_eq!(card.context_length, 8192);
    assert!(card.gen_config.is_none());
    assert!(card.prompt_formatter.is_some());
    assert!(card.chat_template_file.is_none());
    assert!(card.has_tokenizer());
    assert_eq!(card.tokenizer_path().unwrap(), "/models/m/tokenizer.json");
    assert!(!card.requires_preprocessing());
    assert_eq!(card.revision(), 0);
    let sum = card.mdcsum();
    assert_eq!(sum.len(), 64);
    card.set_name("other");
    assert_eq!(card.mdcsum(), sum);
}

#[test]
fn context_length_falls_back_to_the_tokenizer() {
    let mut found = repo();
    found.max_position_embeddings = None;
    let card = ModelDeploymentCard::from_repo_checkout("/m", found).unwrap();
    assert_eq!(card.context_length, 4096);
    let mut found = repo();
    found.max_position_embeddings = None;
    found.model_max_length = None;
    let card = ModelDeploymentCard::from_repo_checkout("/m", found).unwrap();
    assert_eq!(card.context_length, 0);
}

#[test]
fn missing_files_are_told() {
    let mut found = repo();
    found.tokenizer = Err("not found".to_string());
    match ModelDeploymentCard::from_repo_checkout("/m", found) {
        Err(CardError::File(error)) => {
            assert_eq!(error.context, "unable to extract tokenizer kind from directory /m");
            assert_eq!(error.cause, "not found");
        }
        _ => panic!("expected an error"),
    }
    let template = |exists, text, file| {
        let mut found = repo();
        found.custom_template =
            Some(CustomTemplate { path: "/t".to_string(), exists, text, file });
        ModelDeploymentCard::from_repo_checkout("/m", found)
    };
    match template(false, Ok(()), Ok(file("t"))) {
        Err(CardError::NoTemplate(message)) => {
            assert_eq!(message, "Custom template file does not exist: /t")
        }
        _ => panic!("expected an error"),
    }
    match template(true, Err("binary".to_string()), Ok(file("t"))) {
        Err(CardError::UnreadableTemplate(error)) => {
            assert_eq!(error.context, "Failed to read custom template file: /t")
        }
        _ => panic!("expected an error"),
    }
    assert!(matches!(
        template(true, Ok(()), Err("gone".to_string())),
        Err(CardError::Template(_))
    ));
    let card = template(true, Ok(()), Ok(file("t"))).unwrap();
    assert!(matches!(
        card.chat_template_file,
        Some(PromptFormatterArtifact::HfChatTemplate(_))
    ));
    assert!(ModelInfoType::from_disk("/m", Err("x".to_string())).is_err());
    assert!(GenerationConfig::from_disk("/m", Ok(file("g"))).is_ok());
    assert!(TokenizerKind::from_disk("/m", Ok(file("t"))).is_ok());
}

#[test]
fn paths_have_to_be_directories() {
    assert!(check_valid_local_repo_path("/m", true, true).is_ok());
    match check_valid_local_repo_path("/m", false, false) {
        Err(CardError::NoPath(message)) => assert_eq!(message, "Model path does not exist: /m"),
        _ => panic!("expected an error"),
    }
    match check_valid_local_repo_path("/m", true, false) {
        Err(CardError::NotADirectory(message)) => {
            assert_eq!(message, "Model path is not a directory: /m")
        }
        _ => panic!("expected an error"),
    }
}

#[test]
fn checksums_do_not_depend_on_where_files_are() {
    let mut away = ModelDeploymentCard::with_name_only("m");
    away.model_info = Some(ModelInfoType::HfConfigJson(remote("config.json")));
    away.tokenizer = Some(TokenizerKind::HfTokenizerJson(remote("tokenizer.json")));
    away.gen_config = Some(GenerationConfig::HfGenerationConfigJson(remote("g.json")));
    away.prompt_context = Some(vec![
        PromptContextMixin::OaiChat,
        PromptContextMixin::Llama3DateTime,
    ]);
    assert!(!away.has_local_files());
    assert!(matches!(away.tokenizer_path(), Err(TokenizerError::UrlBacked(_))));
    let mut here = away.clone();
    here.update_dir("/cache/m/");
    assert!(here.has_local_files());
    assert_eq!(here.tokenizer_path().unwrap(), "/cache/m/tokenizer.json");
    assert!(here.same_as(&mut away));
    let bytes = [
        b"mblake3:config.jsonblake3:tokenizer.jsonblake3:g.json[OaiChat, Llama3DateTime]".to_vec(),
        vec![0, 0, 0, 0, 0, 0, 0, 0],
    ]
    .concat();
    assert_eq!(here.mdcsum(), blake3::hash(&bytes).to_string());
    let mut larger = away.clone();
    larger.checksum = None;
    larger.context_length = 0x0102_0304;
    assert!(!larger.same_as(&mut away));
}

#[test]
fn blank_cards_have_no_tokenizer() {
    let card = ModelDeploymentCard::with_name_only("m");
    assert!(!card.has_tokenizer());
    assert!(card.has_local_files());
    assert!(matches!(card.tokenizer_path(), Err(TokenizerError::Blank)));
}

#[test]
fn artifacts_know_their_files() {
    let mut info = ModelInfoType::HfConfigJson(remote("config.json"));
    assert!(!info.is_local());
    assert_eq!(info.checksum(), "blake3:config.json");
    info.update_dir("/d");
    assert!(info.is_local());
    let mut formatter = PromptFormatterArtifact::HfTokenizerConfigJson(remote("t.json"));
    formatter.update_dir("");
    match &formatter {
        PromptFormatterArtifact::HfTokenizerConfigJson(file) => {
            assert_eq!(file.path(), Some("t.json"))
        }
        _ => panic!("the kind changed"),
    }
}

#[test]
fn models_without_a_path_have_only_a_name() {
    let mut builder = LocalModelBuilder::default();
    builder
        .migration_limit(Some(3))
        .kv_cache_block_size(Some(32))
        .http_host(Some("host".to_string()))
        .user_data(Some("{\"a\":1}".to_string()))
        .custom_backend_metrics_polling_interval(Some(2.5_f64.to_bits()));
    let mut model = builder.build(None, None, None).unwrap();
    assert_eq!(model.card().user_data, Some("{\"a\":1}".to_string()));
    assert!(builder.user_data.is_none());
    assert_eq!(
        model.custom_backend_metrics_polling_interval().map(f64::from_bits),
        Some(2.5)
    );
    assert_eq!(model.display_name(), "dynamo");
    assert_eq!(model.path(), "");
    assert_eq!(model.card().migration_limit, 3);
    assert_eq!(model.card().kv_cache_block_size, 32);
    assert_eq!(model.http_host(), Some("host".to_string()));
    assert_eq!(model.http_port(), DEFAULT_HTTP_PORT);
    assert_eq!(model.endpoint_id().component, "local_model");
    assert_eq!(model.endpoint_id().name, "generate");
    assert_eq!(model.endpoint_id().namespace.len(), 36);
    assert!(builder.http_host.is_none());
    model.attach(ModelInput::Tokens);
    assert!(model.into_card().requires_preprocessing());
}

#[test]
fn models_are_named_after_the_last_part_of_their_path() {
    let found = |exists, is_dir| {
        Some(FoundModel {
            exists,
            full_path: Ok("/data/llms/Qwen2.5-3B-Instruct".to_string()),
            still_there: true,
            is_dir,
            files: repo(),
        })
    };
    let mut builder = LocalModelBuilder::default();
    builder
        .model_path("Qwen2.5-3B-Instruct".to_string())
        .context_length(Some(100))
        .endpoint_id(Some(EndpointId {
            namespace: "ns".to_string(),
            component: "c".to_string(),
            name: "n".to_string(),
        }));
    let template = RequestTemplate { model: "t".to_string(), max_completion_tokens: 1 };
    let model = builder.build(Some(template), None, found(true, true)).unwrap();
    assert_eq!(model.display_name(), "Qwen2.5-3B-Instruct");
    assert_eq!(model.path(), "/data/llms/Qwen2.5-3B-Instruct");
    assert_eq!(model.card().context_length, 100);
    assert_eq!(model.endpoint_id().namespace, "ns");
    assert_eq!(model.request_template().unwrap().model, "t");

    builder.model_path("gone".to_string());
    match builder.build(None, None, found(false, true)) {
        Err(BuildError::NoPath(message)) => assert_eq!(
            message,
            "Path does not exist: 'gone'. Use LocalModel::fetch to download it."
        ),
        _ => panic!("expected an error"),
    }
    builder.model_path("file".to_string());
    assert!(matches!(
        builder.build(None, None, found(true, false)),
        Err(BuildError::Card(CardError::NotADirectory(_)))
    ));
}

#[test]
fn mock_engines_bring_their_own_settings() {
    let mut builder = LocalModelBuilder::default();
    builder.is_mocker(true).extra_engine_args(Some("args.json".to_string()));
    assert_eq!(builder.mocker_args_path(), Some("args.json".to_string()));
    let overrides = MockerOverrides {
        block_size: 64,
        num_gpu_blocks: 500,
        max_num_seqs: Some(256),
        max_num_batched_tokens: None,
        dp_size: 2,
    };
    let model = builder.build(None, Some(overrides), None).unwrap();
    assert_eq!(model.card().kv_cache_block_size, 64);
    assert_eq!(
        *model.runtime_config(),
        ModelRuntimeConfig {
            total_kv_blocks: Some(500),
            max_num_seqs: Some(256),
            max_num_batched_tokens: None,
            data_parallel_size: 2,
        }
    );
}

fn message_for(contents: Option<&[u8]>, field: &str) -> String {
    let problem = file_json_field(contents, field).unwrap_err();
    field_problem_message(&problem, "\"f.json\"", field)
}

fn field_value<T: serde::de::DeserializeOwned>(contents: &[u8], field: &str) -> T {
    let member = file_json_field(Some(contents), field).unwrap();
    serde_json::from_str(&member.value).unwrap()
}

#[test]
fn test_success_basic() {
    let contents = br#"{ "name": "Rust", "age": 30, "is_active": true }"#;
    let name: String = field_value(contents, "name");
    assert_eq!(name, "Rust");
    let age: i32 = field_value(contents, "age");
    assert_eq!(age, 30);
    let is_active: bool = field_value(contents, "is_active");
    assert!(is_active);
}

#[test]
fn test_success_custom_struct_field() {
    let contents = br#"{
        "config": {
            "version": "1.0.0",
            "enabled": true,
            "count": 123
        },
        "other_field": "value"
    }"#;
    let config: serde_json::Value = field_value(contents, "config");
    assert_eq!(config["version"], "1.0.0");
    assert_eq!(config["enabled"], true);
    assert_eq!(config["count"], 123);
}

#[test]
fn test_field_not_found() {
    let contents = br#"{ "existing_field": "hello" }"#;
    assert_eq!(
        message_for(Some(contents), "non_existent_field"),
        "Field 'non_existent_field' not found in JSON file: \"f.json\""
    );
}

#[test]
fn test_field_type_mismatch() {
    let contents = br#"{ "count": "not_an_integer" }"#;
    let member = file_json_field(Some(contents), "count").unwrap();
    let count: Result<u32, serde_json::Error> = serde_json::from_str(&member.value);
    assert!(count.is_err());
    assert_eq!(member.shown, "String(\"not_an_integer\")");
    let problem = FieldProblem::WrongType { value: member.shown };
    let message = field_problem_message(&problem, "\"f.json\"", "count");
    assert!(message.contains("Failed to deserialize field 'count'"));
    assert!(message.ends_with("to the expected type from file: \"f.json\""));
}

#[test]
fn test_file_not_found() {
    assert!(message_for(None, "field").contains("Failed to open file"));
}

#[test]
fn test_invalid_json_syntax() {
    let contents = br#"{ "key": "value", "bad_syntax": }"#;
    assert!(message_for(Some(contents), "key").contains("Failed to parse JSON from file"));
}

#[test]
fn test_json_root_not_object_array() {
    let contents = br#"[ { "item": 1 }, { "item": 2 } ]"#;
    assert!(message_for(Some(contents), "item").contains("JSON root is not an object"));
}

#[test]
fn test_json_root_not_object_primitive() {
    let contents = br#""just_a_string""#;
    assert!(message_for(Some(contents), "field").contains("JSON root is not an object"));
}

#[test]
fn test_empty_file() {
    assert!(message_for(Some(b""), "field").contains("Failed to parse JSON from file"));
}

#[test]
fn lines_end_with_breaks_and_returns() {
    assert_eq!(lines("a\r\nb\n\nc"), vec!["a", "b", "", "c"]);
    assert_eq!(lines("a\n"), vec!["a"]);
    assert_eq!(lines("a\r"), vec!["a\r"]);
    assert!(lines("").is_empty());
}

#[test]
fn errors_are_shown_in_their_place() {
    let json = "{\n  \"a\": 1,\n  \"b\": 2,\n  \"c\": x,\n  \"d\": 4\n}";
    assert_eq!(
        json_error_report("f.json", json, 4, 8),
        "JSON parsing error in f.json: Line 4, column 8:\n\
         000002   \"a\": 1,\n\
         000003   \"b\": 2,\n\
         >>       \"c\": x,\n\
         ______________^\n\
         000005   \"d\": 4\n\
         000006 }"
    );
    assert_eq!(
        json_error_report("f.json", "{x}", 1, 2),
        "JSON parsing error in f.json: Line 1, column 2:\n\
         >>     {x}\n\
         ________^"
    );
    assert_eq!(
        json_error_report("f.json", "{\n  x,\n  1\n}\n\n", 2, 3),
        "JSON parsing error in f.json: Line 2, column 3:\n\
         000001 {\n\
         >>       x,\n\
         _________^\n\
         000003   1\n\
         000004 }"
    );
    assert_eq!(
        json_error_report("f.json", "", 0, 0),
        "JSON parsing error in f.json: File is empty."
    );
}
