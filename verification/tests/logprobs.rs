use dynamo_llm::perf::logprobs::{
    extract_logprobs_by_choice, validate_and_flatten_choices, ReportedChoice, ReportedToken,
    TokenLogProbs, TokenLogprob,
};
use dynamo_llm::perf::ordering::ascending_order;
use dynamo_llm::perf::sensitivity::{
    analyze_logprob_sensitivity, MeasuredToken, SensitivityAnalysis, Share,
};
use dynamo_llm::ranks::{bits_of, rank_of};
use std::collections::HashMap;

const FLOAT_EPSILON: f32 = 1e-6;

type Report = (&'static str, f32, Vec<(&'static str, f32)>);

fn rank(value: f32) -> i64 {
    rank_of((value as f64).to_bits())
}

fn value(rank: i64) -> f32 {
    f64::from_bits(bits_of(rank)) as f32
}

fn about(rank: i64, expected: f32, epsilon: f32) -> bool {
    (value(rank) - expected).abs() <= epsilon
}

fn token(token: &str, logprob: f32) -> TokenLogprob {
    TokenLogprob { token: token.to_string(), logprob: rank(logprob), bytes: None }
}

fn report((selected, probability, top): Report) -> ReportedToken {
    let logprob = probability.ln();
    ReportedToken {
        selected: token(selected, logprob),
        near: top
            .iter()
            .map(|(_, other)| (other.ln() - logprob).abs() < 1e-6)
            .collect(),
        top_logprobs: top.iter().map(|(text, other)| token(text, other.ln())).collect(),
    }
}

fn measure(tokens: TokenLogProbs) -> MeasuredToken {
    let logprobs: Vec<f32> = tokens.all_tokens().iter().map(|t| value(t.logprob)).collect();
    let top = logprobs[0].exp();
    let total: f32 = logprobs.iter().map(|l| l.exp()).sum();
    MeasuredToken {
        logprob_difference: if logprobs.len() < 2 { 0 } else { rank(logprobs[0] - logprobs[1]) },
        probability_remaining: rank(1.0 - total),
        shortfalls: logprobs.iter().map(|l| rank(top - l.exp())).collect(),
        tokens,
    }
}

fn response(choices: Vec<Vec<Report>>) -> HashMap<u32, Vec<MeasuredToken>> {
    let reported = choices
        .into_iter()
        .enumerate()
        .map(|(index, tokens)| ReportedChoice {
            index: index as u32,
            content: Some(tokens.into_iter().map(report).collect()),
        })
        .collect();
    extract_logprobs_by_choice(reported)
        .into_iter()
        .map(|(choice, tokens)| (choice, tokens.into_iter().map(measure).collect()))
        .collect()
}

fn create_analysis_with_multiple_choices(choices: Vec<Vec<Report>>) -> SensitivityAnalysis {
    analyze_logprob_sensitivity(vec![response(choices)])
}

fn create_analysis_with_logprobs(tokens: Vec<Report>) -> SensitivityAnalysis {
    create_analysis_with_multiple_choices(vec![tokens])
}

fn percentage(share: Option<Share>) -> f32 {
    match share {
        Some(share) => share.count as f32 / share.total as f32 * 100.0,
        None => 0.0,
    }
}

#[test]
fn test_two_tokens_close() {
    let analysis = create_analysis_with_logprobs(vec![("hello", 0.45, vec![("world", 0.44)])]);
    let close = analysis.get_close_positions_for_choice(0, rank(0.1));
    assert_eq!(close.len(), 1);
    assert!(about(close[0].probability_difference, 0.01, FLOAT_EPSILON));
    assert!(about(close[0].logprob_difference, 0.023, 0.001));
    assert_eq!(analysis.detect_multiple_close_tokens(0, rank(0.05)).len(), 0);
}

#[test]
fn test_three_tokens_close() {
    let analysis = create_analysis_with_logprobs(vec![(
        "hello",
        0.35,
        vec![("world", 0.33), ("there", 0.32)],
    )]);
    let close = analysis.get_close_positions_for_choice(0, rank(0.025));
    assert_eq!(close.len(), 1);
    assert!(about(close[0].probability_difference, 0.02, FLOAT_EPSILON));
    let multiple = analysis.detect_multiple_close_tokens(0, rank(0.04));
    assert_eq!(multiple.len(), 1);
    assert_eq!(multiple[0].close_count, 3);
    assert!(about(multiple[0].max_difference, 0.03, FLOAT_EPSILON));
}

#[test]
fn test_four_tokens_close() {
    let analysis = create_analysis_with_logprobs(vec![(
        "hello",
        0.27,
        vec![("world", 0.26), ("there", 0.25), ("friend", 0.22)],
    )]);
    let close = analysis.get_close_positions_for_choice(0, rank(0.02));
    assert_eq!(close.len(), 1);
    assert!(about(close[0].probability_difference, 0.01, FLOAT_EPSILON));
    let multiple = analysis.detect_multiple_close_tokens(0, rank(0.06));
    assert_eq!(multiple.len(), 1);
    assert_eq!(multiple[0].close_count, 4);
    assert!(about(multiple[0].max_difference, 0.05, FLOAT_EPSILON));
}

#[test]
fn test_multiple_choices_analysis() {
    let analysis = create_analysis_with_multiple_choices(vec![
        vec![("hello", 0.7, vec![("world", 0.25)])],
        vec![("hi", 0.505, vec![("there", 0.495)])],
    ]);
    assert_eq!(analysis.choice_analyses.len(), 2);
    let first = analysis.get_close_positions_for_choice(0, rank(0.5));
    assert_eq!(first.len(), 1);
    assert!(about(first[0].probability_difference, 0.45, FLOAT_EPSILON));
    let second = analysis.get_close_positions_for_choice(1, rank(0.5));
    assert_eq!(second.len(), 1);
    assert!(about(second[0].probability_difference, 0.01, FLOAT_EPSILON));
    assert!(second[0].probability_difference < first[0].probability_difference);
}

#[test]
fn test_edge_case_single_token() {
    let analysis = create_analysis_with_logprobs(vec![("hello", 1.0, vec![])]);
    assert_eq!(analysis.get_close_positions_for_choice(0, rank(1.0)).len(), 0);
}

#[test]
fn test_threshold_filtering() {
    let analysis = create_analysis_with_logprobs(vec![
        ("token1", 0.55, vec![("token2", 0.45)]),
        ("token3", 0.8, vec![("token4", 0.2)]),
    ]);
    let strict = analysis.get_close_positions_for_choice(0, rank(0.15));
    assert_eq!(strict.len(), 1);
    assert!(about(strict[0].probability_difference, 0.1, FLOAT_EPSILON));
    let permissive = analysis.get_close_positions_for_choice(0, rank(0.7));
    assert_eq!(permissive.len(), 2);
    assert!(permissive[0].probability_difference < permissive[1].probability_difference);
}

#[test]
fn test_percentage_calculation() {
    let analysis = create_analysis_with_logprobs(vec![
        ("token1", 0.6, vec![("token2", 0.4)]),
        ("token3", 0.9, vec![("token4", 0.1)]),
        ("token5", 0.52, vec![("token6", 0.48)]),
    ]);
    let share = analysis.close_position_share_for_choice(0, rank(0.25));
    assert_eq!(share, Some(Share { count: 2, total: 3 }));
    assert!((percentage(share) - 66.67).abs() < 0.01);
}

#[test]
fn test_real_vllm_equal_logprobs() {
    let analysis = create_analysis_with_logprobs(vec![("Ġblock", 0.403, vec![("Ġchunk", 0.403)])]);
    let close = analysis.get_close_positions_for_choice(0, rank(0.001));
    assert_eq!(close.len(), 1);
    assert!(about(close[0].probability_difference, 0.0, FLOAT_EPSILON));
    let position = close[0];
    assert_eq!(position.candidates.len(), 2);
    let tokens: Vec<&str> = position.candidates.iter().map(|c| c.token.as_str()).collect();
    assert!(tokens.contains(&"Ġblock"));
    assert!(tokens.contains(&"Ġchunk"));
    assert_eq!(position.candidates[0].logprob, position.candidates[1].logprob);
    assert!((value(position.candidates[0].logprob).exp() - 0.403).abs() <= 0.001);
    assert!((value(position.candidates[1].logprob).exp() - 0.403).abs() <= 0.001);
}

#[test]
fn test_sensitivity_analysis() {
    let analysis = analyze_logprob_sensitivity(vec![HashMap::new()]);
    assert_eq!(analysis.total_responses, 1);
    assert!(percentage(analysis.close_position_share_for_choice(0, rank(0.5))) >= 0.0);
}

#[test]
fn test_extract_logprobs_by_choice_empty() {
    let logprobs = extract_logprobs_by_choice(vec![]);
    assert!(logprobs.is_empty() || logprobs.values().any(|v| v.is_empty()));
}

#[test]
fn test_token_logprobs_struct() {
    let alternatives = || vec![token("alt1", 0.2_f32.ln()), token("alt2", 0.1_f32.ln())];
    let tokens = TokenLogProbs::new(
        token("selected", 0.7_f32.ln()),
        alternatives(),
        &vec![false, false],
    );
    assert_eq!(tokens.selected_token(), &token("selected", 0.7_f32.ln()));
    assert_eq!(tokens.alternative_tokens().len(), 2);
    assert_eq!(tokens.all_tokens().len(), 3);
    let all = tokens.all_tokens();
    assert_eq!(all[0].token, "selected");
    assert_eq!(all[1].token, "alt1");
    assert_eq!(all[2].token, "alt2");
    let alternatives = tokens.alternative_tokens();
    assert_eq!(alternatives[0].token, "alt1");
    assert_eq!(alternatives[1].token, "alt2");
}

#[test]
fn test_token_logprobs_selected_in_alternatives() {
    let tokens = TokenLogProbs::new(
        token("token", 0.4_f32.ln()),
        vec![token("token", 0.4_f32.ln()), token("other", 0.3_f32.ln())],
        &vec![true, false],
    );
    let all = tokens.all_tokens();
    assert_eq!(all.len(), 2);
    assert_eq!(all[0].token, "token");
    assert_eq!(all[1].token, "other");
}

#[test]
fn test_validate_and_flatten_choices() {
    let mut choices: HashMap<u32, Vec<u8>> = HashMap::new();
    choices.insert(0, vec![]);
    choices.insert(1, vec![]);
    choices.insert(2, vec![]);
    let result = validate_and_flatten_choices(choices);
    assert!(result.is_ok());
    let flattened = result.unwrap();
    assert_eq!(flattened.len(), 3);

    let mut choices: HashMap<u32, Vec<u8>> = HashMap::new();
    choices.insert(0, vec![]);
    choices.insert(2, vec![]);
    let missing = validate_and_flatten_choices(choices).unwrap_err();
    let message = missing.message();
    assert!(message.contains("Missing choice indices") && message.contains("expected 3 choices"));
    assert!(message.contains("[0, 3), but found 2 choices: ["));

    let mut choices: HashMap<u32, Vec<u8>> = HashMap::new();
    choices.insert(0, vec![]);
    choices.insert(1, vec![1]);
    assert_eq!(validate_and_flatten_choices(choices).unwrap()[1], vec![1]);

    let choices: HashMap<u32, Vec<u8>> = HashMap::new();
    assert_eq!(validate_and_flatten_choices(choices).unwrap().len(), 0);
}

#[test]
fn test_probability_remaining_calculation() {
    let analysis = create_analysis_with_logprobs(vec![(
        "token",
        0.4,
        vec![("alt1", 0.3), ("alt2", 0.1)],
    )]);
    let close = analysis.get_close_positions_for_choice(0, rank(1.0));
    assert_eq!(close.len(), 1);
    assert!(about(close[0].probability_remaining, 0.2, 0.01));
    let complete = create_analysis_with_logprobs(vec![(
        "token",
        0.5,
        vec![("alt1", 0.3), ("alt2", 0.2)],
    )]);
    let close = complete.get_close_positions_for_choice(0, rank(1.0));
    assert_eq!(close.len(), 1);
    assert!(about(close[0].probability_remaining, 0.0, 0.01));
}

#[test]
fn test_position_closeness_ordering() {
    let analysis = create_analysis_with_logprobs(vec![
        ("far", 0.85, vec![("alt", 0.15)]),
        ("close", 0.51, vec![("alt", 0.49)]),
        ("medium", 0.7, vec![("alt", 0.3)]),
    ]);
    let positions = &analysis.choice_analyses.get(&0).unwrap().position_closeness;
    assert_eq!(positions.len(), 3);
    assert!(positions[0].probability_difference <= positions[1].probability_difference);
    assert!(positions[1].probability_difference <= positions[2].probability_difference);
    assert!(about(positions[0].probability_difference, 0.02, FLOAT_EPSILON));
    assert!(about(positions[1].probability_difference, 0.4, FLOAT_EPSILON));
    assert!(about(positions[2].probability_difference, 0.7, FLOAT_EPSILON));
}

#[test]
fn test_multiple_close_tokens_edge_cases() {
    let analysis = create_analysis_with_logprobs(vec![(
        "token",
        0.34,
        vec![("alt1", 0.33), ("alt2", 0.32), ("alt3", 0.01)],
    )]);
    let multiple = analysis.detect_multiple_close_tokens(0, rank(0.025));
    assert_eq!(multiple.len(), 1);
    assert_eq!(multiple[0].close_count, 3);
    assert_eq!(multiple[0].close_tokens.len(), 3);
}

#[test]
fn test_choice_analysis_independence() {
    let analysis = create_analysis_with_multiple_choices(vec![
        vec![
            ("token1", 0.55, vec![("alt1", 0.45)]),
            ("token2", 0.9, vec![("alt2", 0.1)]),
        ],
        vec![("token3", 0.501, vec![("alt3", 0.499)])],
    ]);
    assert_eq!(analysis.choice_analyses.len(), 2);
    assert_eq!(analysis.choice_analyses.get(&0).unwrap().positions_analyzed, 2);
    assert_eq!(analysis.choice_analyses.get(&1).unwrap().positions_analyzed, 1);
    let first = analysis.get_close_positions_for_choice(0, rank(0.5));
    let second = analysis.get_close_positions_for_choice(1, rank(0.5));
    assert_eq!(first.len(), 1);
    assert_eq!(second.len(), 1);
    assert!(second[0].probability_difference < first[0].probability_difference);
}

#[test]
fn test_get_closest_positions_boundary() {
    let analysis = create_analysis_with_logprobs(vec![
        ("token1", 0.6, vec![("alt1", 0.4)]),
        ("token2", 0.75, vec![("alt2", 0.25)]),
    ]);
    assert_eq!(analysis.get_closest_positions_for_choice(0, 10).len(), 2);
    assert_eq!(analysis.get_closest_positions_for_choice(0, 2).len(), 2);
    assert_eq!(analysis.get_closest_positions_for_choice(0, 1).len(), 1);
}

#[test]
fn test_zero_threshold() {
    let analysis = create_analysis_with_logprobs(vec![("token", 0.5, vec![("alt", 0.5)])]);
    let close = analysis.get_close_positions_for_choice(0, rank(0.0));
    assert_eq!(close.len(), 1);
    assert!(about(close[0].probability_difference, 0.0, FLOAT_EPSILON));
}

#[test]
fn test_nonexistent_choice() {
    let analysis = create_analysis_with_logprobs(vec![("token", 0.6, vec![("alt", 0.4)])]);
    assert!(analysis.get_close_positions_for_choice(5, rank(0.1)).is_empty());
    assert!(analysis.get_closest_positions_for_choice(5, 3).is_empty());
    assert_eq!(percentage(analysis.close_position_share_for_choice(5, rank(0.1))), 0.0);
    assert!(!analysis.detect_likely_greedy_decoding(5));
}

#[test]
fn test_logprob_extractor_with_missing_data() {
    let logprobs = extract_logprobs_by_choice(vec![ReportedChoice { index: 0, content: None }]);
    assert_eq!(logprobs.len(), 1);
    assert!(logprobs.values().any(|v| v.is_empty()));
}

#[test]
fn test_greedy_decoding_detection() {
    let analysis = create_analysis_with_logprobs(vec![
        ("best", 0.8, vec![("second", 0.15), ("third", 0.05)]),
        ("optimal", 0.7, vec![("suboptimal", 0.2), ("bad", 0.1)]),
    ]);
    assert!(analysis.detect_likely_greedy_decoding(0));
    assert!(percentage(analysis.greedy_selection_share(0)) > 90.0);
}

#[test]
fn test_non_greedy_decoding_detection() {
    let analysis = create_analysis_with_logprobs(vec![
        ("selected_best", 0.6, vec![("alternative", 0.4)]),
        ("close_choice", 0.35, vec![("very_close", 0.33), ("also_close", 0.32)]),
    ]);
    assert!(!analysis.detect_likely_greedy_decoding(0));
    let greedy = percentage(analysis.greedy_selection_share(0));
    assert!((0.0..=100.0).contains(&greedy));
    assert_eq!(greedy, 50.0);
}

#[test]
fn test_selected_token_not_in_top_logprobs() {
    let analysis = create_analysis_with_logprobs(vec![(
        "unlikely_selection",
        0.15,
        vec![("best_option", 0.4), ("second_best", 0.3)],
    )]);
    let greedy = percentage(analysis.greedy_selection_share(0));
    assert!((0.0..=100.0).contains(&greedy));
    let positions = &analysis.choice_analyses.get(&0).unwrap().position_closeness;
    assert_eq!(positions[0].candidates[2].token, "unlikely_selection");
}

#[test]
fn test_equal_logprobs_greedy_detection() {
    let analysis = create_analysis_with_logprobs(vec![("Ġblock", 0.403, vec![("Ġchunk", 0.403)])]);
    assert_eq!(analysis.get_close_positions_for_choice(0, rank(0.001)).len(), 1);
    assert!(analysis.detect_likely_greedy_decoding(0));
}

#[test]
fn places_are_counted_over_all_responses() {
    let analysis = analyze_logprob_sensitivity(vec![
        response(vec![vec![("a", 0.9, vec![("b", 0.1)]), ("c", 1.0, vec![])]]),
        response(vec![vec![("d", 0.6, vec![("e", 0.4)])]]),
    ]);
    let positions = &analysis.choice_analyses.get(&0).unwrap().position_closeness;
    assert_eq!(positions.len(), 2);
    assert_eq!((positions[0].stream_position, positions[0].token_position), (1, 2));
    assert_eq!((positions[1].stream_position, positions[1].token_position), (0, 0));
}

#[test]
fn places_of_equal_rank_stay_in_order() {
    assert_eq!(ascending_order(&vec![5, 1, 5, 0]), vec![3, 1, 0, 2]);
}

#[test]
fn ranks_follow_the_numbers() {
    let numbers = [f64::NEG_INFINITY, -3.5, -1e-300, 0.0, 1e-300, 0.01, 2.0, f64::INFINITY];
    for pair in numbers.windows(2) {
        assert!(rank_of(pair[0].to_bits()) < rank_of(pair[1].to_bits()));
    }
    assert_eq!(rank_of((-0.0_f64).to_bits()), rank_of(0.0_f64.to_bits()));
    assert_eq!(f64::from_bits(bits_of(rank_of((-3.5_f64).to_bits()))), -3.5);
}
