use dynamo_llm::mocker::engine::{
    plan_request, publishes_events, RunEvent, RunOutput, TokenStream, WorkerType,
};
use dynamo_llm::mocker::queues::{PrefillCost, Request};
use dynamo_llm::mocker::scheduler::{
    after_output, average_length, check_failed_signal, decode_step, first_signal, next_signal,
    try_schedule, worker_stats,
    Budget, Candidate, DecodeStep, Limits, Progress, SchedulerState, Signal, SignalStep,
};

fn cost(new_tokens: usize) -> PrefillCost {
    PrefillCost { new_tokens, cached_tokens: 0 }
}

fn scheduled(limit: Option<usize>, costs: &[usize]) -> SchedulerState<&'static str, u8> {
    let mut state = SchedulerState::new(limit);
    for (index, tokens) in costs.iter().enumerate() {
        state.receive(index as u128, "direct");
        let (uuid, _) = state.next().unwrap();
        state.move_to_prefill(uuid, 0, cost(*tokens));
    }
    state
}

#[test]
fn requests_wait_in_order() {
    let mut state: SchedulerState<&str, u8> = SchedulerState::new(None);
    assert!(state.is_empty());
    state.receive(7, "first");
    state.receive(8, "second");
    assert!(state.knows(7));
    let (uuid, request) = state.next().unwrap();
    assert_eq!(uuid, 7);
    assert!(matches!(request, Request::Direct("first")));
    state.first_in_line(uuid, Request::Active(1));
    let (uuid, request) = state.next().unwrap();
    assert_eq!(uuid, 7);
    assert!(matches!(request, Request::Active(1)));
    assert_eq!(state.next().unwrap().0, 8);
    assert!(state.next().is_none());
}

#[test]
fn prefills_are_cut_at_the_limit() {
    let mut state = scheduled(Some(10), &[4, 9, 1]);
    let steps = state.prefill_all();
    assert_eq!(steps.len(), 2);
    assert_eq!(steps[0].uuid, 0);
    assert_eq!(steps[0].chunk, None);
    assert_eq!(steps[1].uuid, 1);
    assert_eq!(steps[1].chunk, Some(6));
    assert_eq!(state.decode_keys(), vec![0]);
    assert_eq!(state.num_active_requests(), 3);
    state.reset_active_tokens();
    let steps = state.prefill_all();
    assert_eq!(steps.len(), 2);
    assert_eq!(steps[0].cost.new_tokens, 3);
    assert_eq!(steps[0].chunk, None);
    assert_eq!(state.decode_keys(), vec![0, 1, 2]);
}

#[test]
fn the_longest_answered_request_waits_again_behind_all_others() {
    let mut state = scheduled(None, &[1, 1]);
    state.prefill_all();
    state.receive(9, "later");
    state.reset_active_tokens();
    assert_eq!(state.preempt(), Some(0));
    state.replace_sequence(0, 5);
    assert!(state.run(0).is_none());
    assert_eq!(state.run(1), Some(&0));
    assert_eq!(state.next().unwrap().0, 9);
    assert!(matches!(state.next(), Some((0, Request::Active(5)))));
    state.complete(1);
    assert!(state.is_empty());
    assert_eq!(state.preempt(), None);
}

#[test]
fn the_engine_tells_how_busy_it_is() {
    let mut state = scheduled(None, &[1, 1]);
    state.prefill_all();
    state.receive(9, "later");
    let stats = worker_stats(&state, 3);
    assert_eq!(stats.data_parallel_rank, Some(3));
    assert_eq!(stats.request_active_slots, 2);
    assert_eq!(stats.request_total_slots, 1024);
    assert_eq!(stats.num_requests_waiting, 1);
}

fn limits() -> Limits {
    Limits {
        blocks: 10,
        max_num_batched_tokens: Some(100),
        max_num_seqs: Some(4),
        enable_chunked_prefill: false,
        block_size: 16,
    }
}

#[test]
fn only_what_fits_is_scheduled() {
    let nothing = Budget { blocks: 0, tokens: 0, seqs: 0 };
    let small = Candidate { total_tokens: 17, new_tokens: 17 };
    let large = Candidate { total_tokens: 70, new_tokens: 70 };
    // Two blocks each, and four requests at most.
    assert_eq!(try_schedule(limits(), nothing, &vec![small; 6]), 4);
    // Seventeen and seventy fit into a hundred tokens, one more seventeen does not.
    assert_eq!(try_schedule(limits(), nothing, &vec![small, large, small]), 2);
    // Tokens that may come later do not have to fit.
    let chunked = Limits { enable_chunked_prefill: true, blocks: 100, ..limits() };
    assert_eq!(try_schedule(chunked, nothing, &vec![small, large, small, large]), 3);
    // No blocks are left.
    let full = Budget { blocks: 9, tokens: 0, seqs: 0 };
    assert_eq!(try_schedule(limits(), full, &vec![small]), 0);
}

#[test]
fn sequences_go_on_until_they_are_complete() {
    let progress = Progress {
        generated_tokens: 5,
        already_generated_tokens: 4,
        max_output_tokens: 5,
    };
    assert_eq!(decode_step(false, progress), DecodeStep::Preempt);
    assert_eq!(
        decode_step(true, progress),
        DecodeStep::Go { output: true, completed: true }
    );
    let repeated = Progress { generated_tokens: 4, ..progress };
    assert_eq!(
        decode_step(true, repeated),
        DecodeStep::Go { output: false, completed: false }
    );
    assert!(after_output(false, true).free);
    assert!(after_output(false, true).complete);
    assert!(!after_output(true, false).free);
    assert_eq!(average_length(&vec![3, 4, 6]), 4);
    assert_eq!(average_length(&vec![]), 0);
}

#[test]
fn only_a_new_block_may_be_refused() {
    assert!(check_failed_signal(&Signal::Use { blocks: 1, partial: true }, 7).is_ok());
    assert_eq!(
        check_failed_signal(&Signal::Use { blocks: 3, partial: true }, 7).unwrap_err(),
        "Failed signal is Invalid. Tried to create (prefill) 3 blocks on top of 7 active blocks."
    );
    assert_eq!(
        check_failed_signal(&Signal::Use { blocks: 1, partial: false }, 7).unwrap_err(),
        "Failed signal is Invalid. Generation block has to be partial."
    );
    assert!(check_failed_signal(&Signal::Other("Deref".to_string()), 7).is_err());
}

#[test]
fn the_first_change_that_fails_ends_the_list() {
    let signals = vec![
        Signal::Other("Deref".to_string()),
        Signal::Use { blocks: 1, partial: true },
        Signal::Use { blocks: 2, partial: true },
    ];
    assert_eq!(first_signal(&signals), SignalStep::Make(0));
    assert_eq!(first_signal(&[]), SignalStep::AllMade);
    assert_eq!(next_signal(&signals, 0, true, 7), SignalStep::Make(1));
    assert_eq!(next_signal(&signals, 1, false, 7), SignalStep::NoRoom);
    assert_eq!(
        next_signal(&signals, 2, false, 7),
        SignalStep::Invalid(
            "Failed signal is Invalid. Tried to create (prefill) 2 blocks on top of 7 active \
             blocks."
                .to_string()
        )
    );
    assert_eq!(next_signal(&signals, 2, true, 7), SignalStep::AllMade);
}

#[test]
fn requests_are_planned() {
    let id = "550E8400-E29B-41D4-A716-446655440000";
    let plan = plan_request(None, 2, id, WorkerType::Aggregated, Some(9)).unwrap();
    assert_eq!(plan.dp_rank, 0);
    assert_eq!(plan.request_id, "550e8400-e29b-41d4-a716-446655440000");
    assert_eq!(plan.max_output_tokens, 9);
    let plan = plan_request(Some(1), 2, "no uuid", WorkerType::Prefill, None).unwrap();
    assert_eq!(plan.max_output_tokens, 1);
    assert!(plan.is_prefill);
    assert_eq!(plan.request_id.len(), 36);
    assert_eq!(
        plan_request(Some(2), 2, id, WorkerType::Decode, Some(9)).unwrap_err(),
        "dp_rank 2 is out of bounds for dp_size 2"
    );
    assert!(publishes_events(true, WorkerType::Prefill));
    assert!(!publishes_events(true, WorkerType::Decode));
}

#[test]
fn answers_are_made_of_made_up_tokens() {
    let mut stream = TokenStream::new(2);
    match stream.on_event(RunEvent::Token { completed: false }) {
        RunOutput::Token(token) => assert!((1000..2000).contains(&token)),
        _ => panic!("expected a token"),
    }
    assert_eq!(
        stream.on_event_with(RunEvent::Token { completed: true }, 1234),
        RunOutput::Last(1234)
    );
    let mut stream = TokenStream::new(2);
    assert_eq!(
        stream.on_event_with(RunEvent::Token { completed: true }, 1234),
        RunOutput::Error("Completion signal received before max tokens reached")
    );
    assert_eq!(
        stream.on_event(RunEvent::Closed),
        RunOutput::Error("All output transmitters closed")
    );
    assert_eq!(stream.on_event(RunEvent::Stopped), RunOutput::Cancelled);
}
