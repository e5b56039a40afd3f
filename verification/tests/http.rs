use dynamo_llm::http::service::backend_errors::{
    check_for_backend_error, extract_backend_error_if_present, line_of, Annotated, DataView,
    ErrorPayload,
};
use dynamo_llm::http::service::busy_threshold::{check_stored, check_threshold, RequestedThreshold};
use dynamo_llm::http::service::errors::{
    error_type_of_reason, smart_json_error, EngineError, ErrorMessage, HttpError,
};
use dynamo_llm::http::service::openai::{
    fill_model, fill_tokens, get_body_limit, list_models_openai, plan_chat_completion,
    plan_completions, remap_choice, request_id_annotations,
    validate_chat_completion_fields_generic, validate_chat_completion_required_fields,
    validate_chat_completion_unsupported_fields, validate_completion_fields_generic,
    ChatCompletionFields, RequestTemplate,
};
use dynamo_llm::http::service::request_ids::{
    get_or_create_request_id, known_request_id, ANNOTATION_REQUEST_ID, DYNAMO_REQUEST_ID_HEADER,
};
use dynamo_llm::http::service::responses::{
    plan_response, validate_response_input_is_text_only, validate_response_unsupported_fields,
    ResponseFields,
};
use dynamo_llm::http::service::serving::{
    next_action, FoldProblem, Operation, ServeAction, ServeEvent,
};
use dynamo_llm::ranks::rank_of;
use dynamo_llm::http::service::{RouteDoc, Routes};

const BACKUP_ERROR_MESSAGE: &str = "Failed to generate completions";

fn http_error_from_engine(code: u16) -> EngineError {
    EngineError::Http(HttpError { code, message: "custom error message".to_string() })
}

fn make_base_request() -> ResponseFields {
    ResponseFields {
        model: "test-model".to_string(),
        input_is_text: true,
        background: None,
        include_set: false,
        instructions: false,
        max_output_tokens: None,
        max_tool_calls: false,
        parallel_tool_calls: None,
        previous_response_id: false,
        prompt: false,
        reasoning: false,
        service_tier: false,
        store: None,
        stream: None,
        text: false,
        tool_choice: false,
        tools: false,
        truncation: false,
        user: false,
    }
}

fn chat(messages: usize) -> ChatCompletionFields {
    ChatCompletionFields {
        model: "test-model".to_string(),
        messages,
        function_call: false,
        functions: false,
        max_completion_tokens: None,
        stream: None,
        annotations: None,
    }
}

fn no_data() -> DataView {
    DataView { present: false, error: None }
}

#[test]
fn test_http_error_response_from_anyhow() {
    let response = ErrorMessage::from_anyhow(http_error_from_engine(400), BACKUP_ERROR_MESSAGE);
    assert_eq!(response.status, 400);
    assert_eq!(response.body.message, "custom error message");
    assert_eq!(response.body.error_type, "Bad Request");
    assert_eq!(response.body.code, 400);
}

#[test]
fn test_error_response_from_anyhow_out_of_range() {
    let response = ErrorMessage::from_anyhow(http_error_from_engine(399), BACKUP_ERROR_MESSAGE);
    assert_eq!(response.status, 500);
    assert_eq!(response.body.message, "custom error message");

    let response = ErrorMessage::from_anyhow(http_error_from_engine(500), BACKUP_ERROR_MESSAGE);
    assert_eq!(response.status, 500);
    assert_eq!(response.body.message, "custom error message");

    let response = ErrorMessage::from_anyhow(http_error_from_engine(501), BACKUP_ERROR_MESSAGE);
    assert_eq!(response.status, 500);
    assert_eq!(response.body.message, "custom error message");
}

#[test]
fn test_other_error_response_from_anyhow() {
    let other = EngineError::Other("Model not found: foo".to_string());
    let response = ErrorMessage::from_anyhow(other, BACKUP_ERROR_MESSAGE);
    assert_eq!(response.status, 500);
    assert_eq!(
        response.body.message,
        "Failed to generate completions: Model not found: foo"
    );
}

#[test]
fn test_service_overloaded_error_response_from_anyhow() {
    let overloaded = EngineError::ServiceOverloaded(
        "Service temporarily unavailable: All workers are busy, please retry later".to_string(),
    );
    let response = ErrorMessage::from_anyhow(overloaded, BACKUP_ERROR_MESSAGE);
    assert_eq!(response.status, 503);
    assert_eq!(
        response.body.message,
        "Service temporarily unavailable: All workers are busy, please retry later"
    );
}

#[test]
fn test_validate_input_is_text_only_accepts_text() {
    let request = make_base_request();
    assert!(validate_response_input_is_text_only(&request).is_none());
}

#[test]
fn test_validate_input_is_text_only_rejects_items() {
    let mut request = make_base_request();
    request.input_is_text = false;
    assert!(validate_response_input_is_text_only(&request).is_some());
}

#[test]
fn test_validate_unsupported_fields_accepts_clean_request() {
    let request = make_base_request();
    assert!(validate_response_unsupported_fields(&request).is_none());
}

#[test]
fn test_validate_unsupported_fields_accepts_parallel_tool_calls() {
    let mut request = make_base_request();
    request.parallel_tool_calls = Some(true);
    let result = validate_response_unsupported_fields(&request);
    assert!(result.is_none(), "parallel_tool_calls should be supported");
}

#[test]
fn test_validate_unsupported_fields_detects_flags() {
    let cases: Vec<(&str, fn(&mut ResponseFields))> = vec![
        ("background: true", |r| r.background = Some(true)),
        ("include", |r| r.include_set = true),
        ("instructions", |r| r.instructions = true),
        ("max_tool_calls", |r| r.max_tool_calls = true),
        ("previous_response_id", |r| r.previous_response_id = true),
        ("prompt", |r| r.prompt = true),
        ("reasoning", |r| r.reasoning = true),
        ("service_tier", |r| r.service_tier = true),
        ("store: true", |r| r.store = Some(true)),
        ("stream: true", |r| r.stream = Some(true)),
        ("text", |r| r.text = true),
        ("tool_choice", |r| r.tool_choice = true),
        ("tools", |r| r.tools = true),
        ("truncation", |r| r.truncation = true),
        ("user", |r| r.user = true),
    ];
    for (field, set_field) in cases {
        let mut request = make_base_request();
        set_field(&mut request);
        let refused = validate_response_unsupported_fields(&request)
            .expect("Expected rejection");
        assert_eq!(refused.status, 501);
        assert_eq!(refused.body.message, format!("`{}` is not supported.", field));
    }
}

#[test]
fn test_validate_chat_completion_required_fields_empty_messages() {
    let result = validate_chat_completion_required_fields(&chat(0));
    assert!(result.is_err());
    if let Err(error_response) = result {
        assert_eq!(error_response.status, 400);
        assert_eq!(
            error_response.body.message,
            "The 'messages' field cannot be empty. At least one message is required."
        );
    }
}

#[test]
fn test_validate_chat_completion_required_fields_with_messages() {
    assert!(validate_chat_completion_required_fields(&chat(1)).is_ok());
}

#[test]
fn old_tool_fields_are_refused() {
    let mut request = chat(1);
    request.functions = true;
    let refused = validate_chat_completion_unsupported_fields(&request).unwrap_err();
    assert_eq!(refused.status, 501);
    assert_eq!(
        refused.body.message,
        "`functions` is deprecated. Please migrate to use `tools` instead."
    );
    request.function_call = true;
    let refused = validate_chat_completion_unsupported_fields(&request).unwrap_err();
    assert_eq!(
        refused.body.message,
        "`function_call` is deprecated. Please migrate to use `tool_choice` instead."
    );
}

#[test]
fn what_a_check_finds_is_a_bad_request() {
    let problem = || Err("Temperature must be between 0.0 and 2.0, got 3".to_string());
    let chat = validate_chat_completion_fields_generic(problem()).unwrap_err();
    let text = validate_completion_fields_generic(problem()).unwrap_err();
    assert_eq!(chat.status, 400);
    assert_eq!(chat.body.message, "Temperature must be between 0.0 and 2.0, got 3");
    assert_eq!(text.body.message, chat.body.message);
    assert!(validate_completion_fields_generic(Ok(())).is_ok());
}

#[test]
fn a_chat_is_checked_and_filled_in() {
    let template = || {
        Some(RequestTemplate { model: "usual".to_string(), max_completion_tokens: 4096 })
    };
    let mut request = chat(1);
    request.model = String::new();
    request.max_completion_tokens = Some(0);
    request.annotations = Some(vec!["request_id".to_string(), "other".to_string()]);
    let plan = plan_chat_completion(request.clone(), Ok(()), template()).unwrap();
    assert_eq!(plan.model, "usual");
    assert_eq!(plan.max_completion_tokens, Some(4096));
    assert!(!plan.streaming);
    assert_eq!(plan.id_annotations, 1);

    request.stream = Some(true);
    let plan = plan_chat_completion(request.clone(), Ok(()), None).unwrap();
    assert_eq!(plan.model, "");
    assert_eq!(plan.max_completion_tokens, Some(0));
    assert!(plan.streaming);

    let refused = plan_chat_completion(request, Err("bad".to_string()), None).unwrap_err();
    assert_eq!(refused.body.message, "bad");
    assert_eq!(fill_tokens(Some(7), &template()), Some(7));
    assert_eq!(fill_model("own".to_string(), &template()), "own");
    assert_eq!(request_id_annotations(&None), 0);
    assert_eq!(ANNOTATION_REQUEST_ID, "request_id");
}

#[test]
fn a_response_is_served_by_the_model_that_it_names() {
    let template = Some(RequestTemplate { model: "usual".to_string(), max_completion_tokens: 9 });
    let mut request = make_base_request();
    request.model = String::new();
    let plan = plan_response(request, template).unwrap();
    assert_eq!(plan.engine_model, "");
    assert_eq!(plan.model, "usual");
    assert_eq!(plan.max_output_tokens, Some(9));
}

#[test]
fn batches_are_taken_apart() {
    let single = plan_completions("id", 1, Some(3));
    assert_eq!(single.len(), 1);
    assert_eq!(single[0].request_id, "id");
    assert_eq!(single[0].choice_offset, 0);
    let batch = plan_completions("id", 12, Some(3));
    assert_eq!(batch[11].request_id, "id-11");
    assert_eq!(batch[11].choice_offset, 33);
    assert_eq!(remap_choice(2, 33), 35);
    assert_eq!(plan_completions("id", 2, None)[1].choice_offset, 1);
}

#[test]
fn names_are_taken_from_trace_request_and_header() {
    let upper = "550E8400-E29B-41D4-A716-446655440000";
    let lower = "550e8400-e29b-41d4-a716-446655440000";
    assert_eq!(
        get_or_create_request_id(Some("trace".to_string()), Some(upper), None),
        "trace"
    );
    assert_eq!(get_or_create_request_id(None, Some(upper), None), lower);
    assert_eq!(get_or_create_request_id(None, Some("no uuid"), Some(upper)), lower);
    let made = get_or_create_request_id(None, None, Some("no uuid"));
    assert_eq!(made.len(), 36);
    assert_eq!(get_or_create_request_id(None, Some(&made), None), made);
    assert_ne!(get_or_create_request_id(None, None, None), made);
    assert_eq!(
        known_request_id(None, None, Some("header".to_string())),
        Some("header".to_string())
    );
    assert_eq!(DYNAMO_REQUEST_ID_HEADER, "x-dynamo-request-id");
}

#[test]
fn the_body_limit_is_in_mebibytes() {
    assert_eq!(get_body_limit(None), 45 * 1024 * 1024);
    assert_eq!(get_body_limit(Some(2)), 2 * 1024 * 1024);
}

#[test]
fn unprocessable_bodies_are_bad_requests() {
    let answer = smart_json_error(422, "missing field".to_string()).unwrap();
    assert_eq!(answer.status, 400);
    assert_eq!(answer.body.message, "missing field");
    assert!(smart_json_error(500, String::new()).is_none());
}

#[test]
fn errors_carry_the_phrase_for_their_status() {
    assert_eq!(ErrorMessage::model_not_found().body.error_type, "Not Found");
    assert_eq!(ErrorMessage::model_not_found().body.message, "Model not found");
    assert_eq!(ErrorMessage::_service_unavailable().status, 503);
    assert_eq!(ErrorMessage::_service_unavailable().body.message, "Service is not ready");
    assert_eq!(
        ErrorMessage::not_implemented_error("x").body.error_type,
        "Not Implemented"
    );
    let odd = ErrorMessage::from_error(HttpError { code: 7, message: "m".to_string() });
    assert_eq!(odd.code, 7);
    assert_eq!(odd.error_type, "Internal Server Error");
    let unnamed = ErrorMessage::from_http_error(HttpError { code: 499, message: String::new() });
    assert_eq!(unnamed.body.error_type, "UnknownError");
    assert_eq!(error_type_of_reason(None), "UnknownError");
}

#[test]
fn test_check_for_backend_error_with_error_event() {
    let event: Annotated<()> = Annotated {
        data: None,
        id: None,
        event: Some("error".to_string()),
        comment: Some(vec!["Backend service unavailable".to_string()]),
    };
    let refused = check_for_backend_error(Some(event), None, no_data()).unwrap_err();
    assert_eq!(refused.status, 500);
    assert_eq!(refused.body.message, "Backend service unavailable");
}

#[test]
fn test_check_for_backend_error_with_json_error_and_code() {
    let event: Annotated<()> = Annotated {
        data: None,
        id: None,
        event: Some("error".to_string()),
        comment: Some(vec!["{\"message\":\"prompt > max_seq_len\",\"type\":\"Internal Server Error\",\"code\":500}".to_string()]),
    };
    let payload = ErrorPayload {
        message: Some("prompt > max_seq_len".to_string()),
        code: Some(500),
    };
    let refused = check_for_backend_error(Some(event), Some(payload), no_data()).unwrap_err();
    assert_eq!(refused.status, 500);
    assert_eq!(refused.body.message, "prompt > max_seq_len");
    assert_eq!(refused.body.code, 500);
}

#[test]
fn test_check_for_backend_error_with_normal_event() {
    let event: Annotated<u8> = Annotated {
        data: Some(1),
        id: Some("msg-1".to_string()),
        event: None,
        comment: None,
    };
    let data = DataView { present: true, error: None };
    let result = check_for_backend_error(Some(event), None, data);
    assert!(result.is_ok());
    let first = result.unwrap();
    assert!(first.is_some());
    let first_event = first.unwrap();
    assert_eq!(first_event.id, Some("msg-1".to_string()));
}

#[test]
fn test_check_for_backend_error_with_empty_stream() {
    let empty: Option<Annotated<u8>> = None;
    let result = check_for_backend_error(empty, None, no_data());
    assert!(result.is_ok());
    assert!(result.unwrap().is_none());
}

#[test]
fn test_check_for_backend_error_with_comment_but_no_event_type() {
    let event: Annotated<()> = Annotated {
        data: None,
        id: None,
        event: None,
        comment: Some(vec!["Connection timeout".to_string()]),
    };
    let refused = check_for_backend_error(Some(event), None, no_data()).unwrap_err();
    assert_eq!(refused.status, 500);
    assert_eq!(refused.body.message, "Connection timeout");
}

#[test]
fn errors_are_found_in_data_and_comments() {
    let mut event: Annotated<u8> = Annotated {
        data: Some(1),
        id: None,
        event: Some("request_id".to_string()),
        comment: Some(vec!["a".to_string(), "b".to_string()]),
    };
    assert_eq!(line_of(&event), "a, b");
    let data = || DataView {
        present: true,
        error: Some((
            ErrorPayload { message: None, code: Some(429) },
            "{\"code\":429}".to_string(),
        )),
    };
    let found = extract_backend_error_if_present(&event, None, data()).unwrap();
    assert_eq!(found.status, 429);
    assert_eq!(found.message, "{\"code\":429}");
    let plain = DataView { present: true, error: None };
    let payload = || Some(ErrorPayload { message: None, code: Some(1400) });
    let found = extract_backend_error_if_present(&event, payload(), plain.clone()).unwrap();
    assert_eq!(found.status, 500);
    assert_eq!(found.message, "a, b");
    assert!(extract_backend_error_if_present(&event, None, plain).is_none());
    event.event = Some("error".to_string());
    event.comment = None;
    let found = extract_backend_error_if_present(&event, None, data()).unwrap();
    assert_eq!(found.message, "Unknown error");
}

#[test]
fn thresholds_are_checked() {
    let threshold = |value: f64| {
        Some(RequestedThreshold { rank: rank_of(value.to_bits()), text: format!("{value}") })
    };
    for inside in [0.0, -0.0, 0.85, 1.0] {
        assert!(check_threshold(&threshold(inside)).is_ok());
    }
    for outside in [-0.1, 1.0000001, f64::NAN, f64::INFINITY] {
        assert!(check_threshold(&threshold(outside)).is_err());
    }
    let outside = threshold(1.5);
    let error = check_threshold(&outside).unwrap_err();
    assert_eq!(error.status, 400);
    assert_eq!(error.body.error, "Threshold must be between 0.0 and 1.0, got 1.5");
    assert!(check_threshold(&None).is_ok());
    let error = check_stored("llama", true, false).unwrap_err();
    assert_eq!(error.status, 404);
    assert_eq!(
        error.body.error,
        "Model 'llama' not found. Thresholds can only be set for discovered models."
    );
    assert!(check_stored("llama", false, false).is_ok());
}

#[test]
fn models_are_listed() {
    let list = list_models_openai(vec!["a".to_string(), "b".to_string()], 5);
    assert_eq!(list.object, "list");
    assert_eq!(list.data.len(), 2);
    assert_eq!(list.data[1].id, "b");
    assert_eq!(list.data[1].object, "model");
    assert_eq!(list.data[1].created, 5);
    assert_eq!(list.data[1].owned_by, "nvidia");
}

#[test]
fn routes_are_documented() {
    assert_eq!(Routes::ChatCompletions.path(None), "/v1/chat/completions");
    assert_eq!(Routes::Metrics.path(Some("/m".to_string())), "/m");
    let docs = Routes::BusyThreshold.docs("/busy_threshold");
    assert_eq!(docs.len(), 2);
    assert_eq!(docs[0].text(), "POST /busy_threshold");
    assert_eq!(docs[1].text(), "GET /busy_threshold");
    assert_eq!(RouteDoc::new("GET".to_string(), "/x".to_string()).text(), "GET /x");
}

#[test]
fn requests_take_their_course() {
    let action = next_action(
        Operation::ChatCompletions,
        false,
        "id",
        ServeEvent::EngineLookedUp { found: false },
    );
    match action {
        ServeAction::Fail(response) => assert_eq!(response.status, 404),
        _ => panic!("expected a failure"),
    }
    assert!(matches!(
        next_action(Operation::ChatCompletions, false, "id", ServeEvent::Asked(Ok(()))),
        ServeAction::CheckFirst
    ));
    assert!(matches!(
        next_action(Operation::ChatCompletions, true, "id", ServeEvent::Asked(Ok(()))),
        ServeAction::Stream
    ));
    assert!(matches!(
        next_action(Operation::Embeddings, true, "id", ServeEvent::Asked(Ok(()))),
        ServeAction::Fold
    ));
    assert!(matches!(
        next_action(Operation::Responses, false, "id", ServeEvent::Folded(Ok(()))),
        ServeAction::Convert
    ));
    let problem = FoldProblem { text: "text".to_string(), detail: "Detail".to_string() };
    match next_action(Operation::Completions, false, "id", ServeEvent::Folded(Err(problem))) {
        ServeAction::Fail(response) => assert_eq!(
            response.body.message,
            "Failed to fold completions stream for id: Detail"
        ),
        _ => panic!("expected a failure"),
    }
    let lost = ServeEvent::TaskLost("JoinError".to_string());
    match next_action(Operation::Completions, false, "id", lost) {
        ServeAction::Fail(response) => assert_eq!(
            response.body.message,
            "Failed to await chat completions task: JoinError"
        ),
        _ => panic!("expected a failure"),
    }
}
