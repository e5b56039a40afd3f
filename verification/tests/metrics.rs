use dynamo_llm::http::service::backend_errors::Annotated;
use dynamo_llm::http::service::buckets::{
    bucket_config, log_buckets, validate_bucket_config, Buckets,
};
use dynamo_llm::http::service::metrics::{
    metric_definitions, metrics_answer, process_response_and_observe_metrics,
    process_response_using_event_converter_and_observe_metrics, update_metrics_from_mdc,
    update_runtime_config_metrics, BucketSource, Endpoint, EventConverter, InflightGuard,
    LLMMetricAnnotation, Metric, MetricKind, Observation, RequestType, ResponseMetricCollector,
    SseItem, Status, ANNOTATION_LLM_METRICS,
};
use dynamo_llm::kv_router::scheduler::ModelRuntimeConfig;
use dynamo_llm::ranks::{bits_of, rank_of, ONE_RANK, TEN_RANK};

fn tokens(recorded: Option<Observation>) -> usize {
    recorded.map(|observation| observation.output_tokens).unwrap_or(0)
}

#[test]
fn test_output_tokens_counter_increments() {
    let mut collector = ResponseMetricCollector::new();
    let mut counter = tokens(collector.observe_response(100, 5, 1));
    assert_eq!(counter, 5);
    counter += tokens(collector.observe_response(100, 10, 2));
    assert_eq!(counter, 15);
    counter += tokens(collector.observe_response(100, 7, 3));
    assert_eq!(counter, 22);
}

#[test]
fn test_output_tokens_counter_zero_tokens() {
    let mut collector = ResponseMetricCollector::new();
    let mut counter = tokens(collector.observe_response(100, 0, 1));
    assert_eq!(counter, 0);
    counter += tokens(collector.observe_response(100, 5, 2));
    assert_eq!(counter, 5);
    counter += tokens(collector.observe_response(100, 0, 3));
    assert_eq!(counter, 5);
}

#[test]
fn test_output_tokens_counter_multiple_models() {
    let mut collector1 = ResponseMetricCollector::new();
    let mut collector2 = ResponseMetricCollector::new();
    let mut counter1 = 0;
    let mut counter2 = 0;
    counter1 += tokens(collector1.observe_response(100, 10, 1));
    assert_eq!(counter1, 10);
    assert_eq!(counter2, 0);
    counter2 += tokens(collector2.observe_response(200, 20, 1));
    assert_eq!(counter1, 10);
    assert_eq!(counter2, 20);
    counter1 += tokens(collector1.observe_response(100, 5, 2));
    assert_eq!(counter1, 15);
    assert_eq!(counter2, 20);
}

#[test]
fn test_cached_tokens_once_per_request() {
    let mut collector = ResponseMetricCollector::new();
    assert_eq!(collector.observe_cached_tokens(None), None);
    assert_eq!(collector.observe_cached_tokens(Some(100)), Some(100));
    assert_eq!(collector.observe_cached_tokens(Some(50)), None);
    assert_eq!(collector.observe_cached_tokens(Some(75)), None);
}

#[test]
fn test_metrics_annotation_event_handling() {
    let mut collector = ResponseMetricCollector::new();
    let annotated: Annotated<u8> = Annotated {
        id: None,
        data: None,
        event: Some(ANNOTATION_LLM_METRICS.to_string()),
        comment: Some(vec!["measures".to_string()]),
    };
    let llm_metrics = LLMMetricAnnotation {
        input_tokens: 10,
        output_tokens: 20,
        chunk_tokens: 5,
        cached_tokens: Some(15),
    };
    let mut http_queue_guard: Option<u8> = None;
    let (item, observed) = process_response_using_event_converter_and_observe_metrics(
        EventConverter::new(annotated),
        Some(llm_metrics),
        &mut collector,
        &mut http_queue_guard,
        1,
    );
    assert!(matches!(item, SseItem::Nothing));
    assert_eq!(observed.cached_tokens, Some(15));
    assert_eq!(collector.osl, 20);
}

#[test]
fn the_place_in_the_queue_is_given_up_at_the_first_token() {
    let mut collector = ResponseMetricCollector::new();
    let mut guard = Some("guard");
    let measured = |chunk_tokens| {
        Some(LLMMetricAnnotation {
            input_tokens: 3,
            output_tokens: 0,
            chunk_tokens,
            cached_tokens: None,
        })
    };
    assert_eq!(
        process_response_and_observe_metrics(measured(0), &mut collector, &mut guard, 4),
        None
    );
    assert!(guard.is_some());
    let first = process_response_and_observe_metrics(measured(2), &mut collector, &mut guard, 5)
        .unwrap();
    assert!(guard.is_none());
    assert_eq!(first.first, Some((5, 3)));
    assert_eq!(first.gap, None);
    let second = process_response_and_observe_metrics(measured(2), &mut collector, &mut guard, 9)
        .unwrap();
    assert_eq!(second.first, None);
    assert_eq!(second.gap, Some((4, 2)));
}

fn convert(event: Option<&str>, comment: Option<Vec<String>>, data: Option<u8>) -> SseItem<u8> {
    let annotated = Annotated {
        id: None,
        data,
        event: event.map(|name| name.to_string()),
        comment,
    };
    let mut collector = ResponseMetricCollector::new();
    let mut guard: Option<u8> = None;
    process_response_using_event_converter_and_observe_metrics(
        EventConverter::new(annotated),
        None,
        &mut collector,
        &mut guard,
        0,
    )
    .0
}

#[test]
fn items_become_events() {
    match convert(Some("error"), Some(vec!["a".to_string(), "b".to_string()]), None) {
        SseItem::Failure { message, .. } => assert_eq!(message, "a -- b"),
        _ => panic!("expected a failure"),
    }
    match convert(Some("error"), None, None) {
        SseItem::Failure { message, .. } => assert_eq!(message, "unspecified error"),
        _ => panic!("expected a failure"),
    }
    match convert(Some("note"), Some(vec!["c".to_string()]), Some(7)) {
        SseItem::Event { data, event, comments } => {
            assert_eq!(data, Some(7));
            assert_eq!(event.as_deref(), Some("note"));
            assert_eq!(comments, vec!["c".to_string()]);
        }
        _ => panic!("expected an event"),
    }
    assert!(matches!(convert(None, None, None), SseItem::Nothing));
}

#[test]
fn requests_count_as_failed_until_they_are_served() {
    let mut guard = InflightGuard::new("Llama-3", Endpoint::ChatCompletions, true);
    assert_eq!(guard.model, "llama-3");
    assert_eq!(guard.request_type, RequestType::Stream);
    assert_eq!(guard.labels(), ("chat_completions", "stream", "error"));
    guard.mark_ok();
    assert_eq!(guard.labels(), ("chat_completions", "stream", "success"));
    assert_eq!(Endpoint::Tensor.as_str(), "tensor");
    assert_eq!(RequestType::Unary.as_str(), "unary");
    assert_eq!(Status::Error.as_str(), "error");
}

#[test]
fn everything_that_is_measured_is_defined() {
    let definitions = metric_definitions("dynamo_frontend");
    assert_eq!(definitions.len(), 17);
    assert_eq!(definitions[0].name, "dynamo_frontend_requests_total");
    assert_eq!(definitions[0].kind, MetricKind::CounterVec);
    assert_eq!(
        definitions[0].labels,
        vec!["model", "endpoint", "request_type", "status"]
    );
    assert_eq!(definitions[2].kind, MetricKind::Gauge);
    assert!(definitions[2].labels.is_empty());
    let cached = &definitions[7];
    assert_eq!(cached.name, "dynamo_frontend_cached_tokens");
    match cached.kind {
        MetricKind::HistogramVec(buckets) => {
            assert_eq!(buckets.source, BucketSource::InputSequence);
            assert_eq!(buckets.source.as_str(), "DYN_METRICS_INPUT_SEQUENCE");
            assert_eq!(buckets.min_thousandths, 50_000);
            assert_eq!(buckets.max_thousandths, 128_000_000);
            assert_eq!(buckets.count, 12);
        }
        _ => panic!("expected a histogram"),
    }
    assert_eq!(
        definitions[16].help,
        "Maximum number of request migrations allowed for the model"
    );
}

#[test]
fn reports_set_gauges() {
    let config = ModelRuntimeConfig {
        total_kv_blocks: Some(u64::MAX),
        max_num_seqs: None,
        max_num_batched_tokens: Some(7),
        data_parallel_size: 1,
    };
    assert_eq!(
        update_runtime_config_metrics(&config),
        vec![(Metric::TotalKvBlocks, i64::MAX), (Metric::MaxNumBatchedTokens, 7)]
    );
    let gauges = update_metrics_from_mdc(&config, 100, 16, 3);
    assert_eq!(
        gauges[2..],
        [
            (Metric::ContextLength, 100),
            (Metric::KvCacheBlockSize, 16),
            (Metric::MigrationLimit, 3)
        ]
    );
}

#[test]
fn metrics_are_answered() {
    assert_eq!(metrics_answer(Some("text".to_string())), (200, "text".to_string()));
    assert_eq!(metrics_answer(None), (500, "Failed to encode metrics".to_string()));
}

fn rounded(value: f64) -> f64 {
    let scale = 10_f64.powf(1.0 - value.abs().log10().floor());
    (value * scale).round() / scale
}

fn generate_log_buckets(min: f64, max: f64, count: usize) -> Vec<f64> {
    let spaced: Vec<i64> = (1..count)
        .map(|i| {
            let step = (i as f64) / ((count - 1) as f64);
            rounded((min.ln() + (max.ln() - min.ln()) * step).exp())
        })
        .map(|bound| rank_of(bound.to_bits()))
        .collect();
    log_buckets(count, &spaced)
        .bounds
        .into_iter()
        .map(|bound| f64::from_bits(bits_of(bound)))
        .collect()
}

fn check_increasing(buckets: &[f64]) {
    for i in 1..buckets.len() {
        assert!(buckets[i] > buckets[i - 1]);
    }
}

#[test]
fn test_generate_log_buckets_basic() {
    let buckets = generate_log_buckets(1.0, 100.0, 5);
    assert_eq!(buckets.len(), 5);
    assert_eq!(buckets[0], 0.0);
    assert_eq!(buckets[buckets.len() - 1], 100.0);
    check_increasing(&buckets);
}

#[test]
fn test_generate_log_buckets_edge_cases() {
    assert_eq!(generate_log_buckets(1.0, 100.0, 0).len(), 0);
    let buckets = generate_log_buckets(1.0, 100.0, 1);
    assert_eq!(buckets.len(), 1);
    assert_eq!(buckets[0], 0.0);
    let buckets = generate_log_buckets(1.0, 100.0, 2);
    assert_eq!(buckets.len(), 2);
    assert_eq!(buckets[0], 0.0);
    assert_eq!(buckets[1], 100.0);
}

#[test]
fn test_generate_log_buckets_always_includes_zero() {
    for count in 1..=20 {
        let buckets = generate_log_buckets(0.1, 1000.0, count);
        assert_eq!(buckets[0], 0.0, "First bucket should always be 0.0 for count={}", count);
    }
}

#[test]
fn test_sig_fig_limitation_with_many_buckets() {
    let buckets = generate_log_buckets(0.0001, 1.0, 1000);
    assert!(buckets.len() < 500);
    let mut sorted = buckets.clone();
    sorted.sort_by(|a, b| a.partial_cmp(b).unwrap());
    sorted.dedup();
    assert_eq!(buckets.len(), sorted.len());
    assert_eq!(buckets[0], 0.0);
    check_increasing(&buckets);
}

#[test]
fn test_deduplication_preserves_order() {
    let buckets = generate_log_buckets(0.01, 1.0, 50);
    let mut unique = std::collections::HashSet::new();
    for bucket in &buckets {
        assert!(unique.insert(bucket.to_bits()));
    }
    check_increasing(&buckets);
}

#[test]
fn repeated_bounds_are_told_of() {
    let few = log_buckets(12, &vec![1, 2, 3, 4, 5, 6, 7, 8, 9, 10, 10]);
    assert_eq!(few.bounds, vec![0, 1, 2, 3, 4, 5, 6, 7, 8, 9, 10]);
    assert!(!few.many_repeated);
    assert!(log_buckets(4, &vec![1, 1, 2]).many_repeated);
}

#[test]
fn bad_bucket_settings_are_passed_over() {
    let rank = |value: f64| rank_of(value.to_bits());
    let usual = Buckets { min: rank(50.0), max: rank(32000.0), count: 10 };
    let set = bucket_config(usual, Some(rank(1.5)), None, Some(512));
    assert_eq!(set, Buckets { min: rank(1.5), max: rank(32000.0), count: 512 });
    assert_eq!(bucket_config(usual, Some(rank(0.0)), None, None), usual);
    assert_eq!(bucket_config(usual, Some(rank(-1.0)), None, None), usual);
    assert_eq!(bucket_config(usual, None, Some(rank(f64::INFINITY)), None), usual);
    assert_eq!(bucket_config(usual, None, Some(rank(f64::NAN)), None), usual);
    assert_eq!(bucket_config(usual, None, Some(rank(50.0)), None), usual);
    assert_eq!(bucket_config(usual, None, None, Some(513)), usual);
    assert_eq!(bucket_config(usual, None, None, Some(0)), usual);
    let broken = Buckets { min: rank(2.0), max: rank(1.0), count: 10 };
    assert!(!validate_bucket_config(broken));
    let fallback = bucket_config(broken, None, None, None);
    assert_eq!(fallback, Buckets { min: rank(1.0), max: rank(10.0), count: 10 });
    assert_eq!((ONE_RANK, TEN_RANK), (rank(1.0), rank(10.0)));
}
