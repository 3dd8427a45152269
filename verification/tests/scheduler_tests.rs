use kv_router::protocols::{
    DisaggregationMode, KVHitRateEvent, KvSchedulerError, PotentialLoad, SchedulingResponse,
    Worker, WorkerRuntimeConfig, WorkerSelectionResult,
};
use kv_router::scheduler::{
    after_selection, get_potential_loads, worker_ids, worker_table, OverlapScores, ReplySlot,
    SchedulerStep, SchedulingRequest, BACKOFF_MILLIS, REQUEST_QUEUE_CAPACITY,
};
use kv_router::selector::{DefaultWorkerSelector, Selection};
use std::collections::HashMap;

fn make_request(id: Option<&str>, update_states: bool) -> SchedulingRequest {
    SchedulingRequest::new(
        id.map(|s| s.to_string()),
        10,
        Some(vec![11, 22, 33]),
        OverlapScores { scores: HashMap::new() },
        None,
        update_states,
    )
}

const SELECTION: WorkerSelectionResult =
    WorkerSelectionResult { worker_id: 7, required_blocks: 3, overlap_blocks: 1 };

#[test]
fn respond_delivers_once() {
    let mut request = make_request(Some("a"), true);
    let response = SchedulingResponse { best_worker_id: 4, overlap_blocks: 2 };
    assert_eq!(request.respond(response), Some(response));
    assert_eq!(request.respond(response), None);
    assert_eq!(request.respond(response), None);
    assert_eq!(request.isl_tokens, 10);
    assert_eq!(request.maybe_request_id.as_deref(), Some("a"));
}

#[test]
fn reply_slot_is_single_use() {
    let mut slot = ReplySlot::new();
    assert!(slot.take());
    assert!(!slot.take());
}

#[test]
fn new_request_has_no_predictions() {
    let request = make_request(None, false);
    assert!(request.decode_blocks.is_empty());
    assert!(request.prefill_tokens.is_empty());
    assert!(request.maybe_request_id.is_none());
    assert_eq!(request.token_seq, Some(vec![11, 22, 33]));
    assert!(!request.update_states);
}

#[test]
fn selection_is_published_answered_and_recorded() {
    match after_selection(make_request(Some("req-1"), true), Ok(SELECTION)) {
        SchedulerStep::Dispatch { event, response, reservation } => {
            assert_eq!(event, KVHitRateEvent { worker_id: 7, isl_blocks: 3, overlap_blocks: 1 });
            assert_eq!(response, Some(SchedulingResponse { best_worker_id: 7, overlap_blocks: 1 }));
            assert_eq!(event.worker_id, response.unwrap().best_worker_id);
            let reservation = reservation.expect("a request with an id is recorded");
            assert_eq!(reservation.request_id, "req-1");
            assert_eq!(reservation.token_seq, Some(vec![11, 22, 33]));
            assert_eq!(reservation.isl_tokens, 10);
            assert_eq!(reservation.overlap, 1);
            assert_eq!(reservation.worker_id, 7);
        }
        _ => panic!("a selection is dispatched"),
    }
}

#[test]
fn query_only_request_is_not_recorded() {
    match after_selection(make_request(Some("req-1"), false), Ok(SELECTION)) {
        SchedulerStep::Dispatch { response, reservation, .. } => {
            assert!(response.is_some());
            assert!(reservation.is_none());
        }
        _ => panic!("a selection is dispatched"),
    }
}

#[test]
fn request_without_id_is_not_recorded() {
    match after_selection(make_request(None, true), Ok(SELECTION)) {
        SchedulerStep::Dispatch { event, reservation, .. } => {
            assert_eq!(event.worker_id, 7);
            assert!(reservation.is_none());
        }
        _ => panic!("a selection is dispatched"),
    }
}

#[test]
fn answered_request_is_not_answered_again() {
    let mut request = make_request(Some("x"), true);
    let _ = request.respond(SchedulingResponse { best_worker_id: 1, overlap_blocks: 0 });
    match after_selection(request, Ok(SELECTION)) {
        SchedulerStep::Dispatch { response, reservation, .. } => {
            assert!(response.is_none());
            assert!(reservation.is_some());
        }
        _ => panic!("a selection is dispatched"),
    }
}

#[test]
fn lack_of_workers_backs_off_five_milliseconds() {
    assert_eq!(BACKOFF_MILLIS, 5);
    assert_eq!(REQUEST_QUEUE_CAPACITY, 1024);
    match after_selection(make_request(Some("a"), true), Err(KvSchedulerError::NoEndpoints)) {
        SchedulerStep::Backoff { millis } => assert_eq!(millis, 5),
        _ => panic!("no endpoints means waiting"),
    }
    match after_selection(make_request(Some("a"), true), Err(KvSchedulerError::AllWorkersBusy)) {
        SchedulerStep::Backoff { millis } => assert_eq!(millis, 5),
        _ => panic!("busy workers mean waiting"),
    }
    assert!(matches!(
        after_selection(make_request(Some("a"), true), Err(KvSchedulerError::SubscriberShutdown)),
        SchedulerStep::Stop
    ));
}

#[test]
fn empty_fleet_makes_the_loop_wait() {
    let selector = DefaultWorkerSelector::default();
    let request = make_request(Some("a"), true);
    let outcome = match selector.select_worker(&Vec::new(), &request, 4) {
        Ok(Selection::Chosen(result)) => Ok(result),
        Ok(Selection::Weighted(_)) => panic!("nothing to weigh"),
        Err(e) => Err(e),
    };
    assert!(matches!(
        after_selection(request, outcome),
        SchedulerStep::Backoff { millis: 5 }
    ));
}

#[test]
fn single_worker_flow_publishes_its_event() {
    let selector = DefaultWorkerSelector::default();
    let request = make_request(Some("a"), true);
    let workers = vec![Worker { worker_id: 7, config: None }];
    let outcome = match selector.select_worker(&workers, &request, 4) {
        Ok(Selection::Chosen(result)) => Ok(result),
        Ok(Selection::Weighted(_)) => panic!("one worker needs no weights"),
        Err(e) => Err(e),
    };
    match after_selection(request, outcome) {
        SchedulerStep::Dispatch { event, response, .. } => {
            assert_eq!(event, KVHitRateEvent { worker_id: 7, isl_blocks: 3, overlap_blocks: 0 });
            assert_eq!(response.unwrap().best_worker_id, 7);
        }
        _ => panic!("a selection is dispatched"),
    }
}

#[test]
fn worker_table_lists_each_instance_once() {
    let config = WorkerRuntimeConfig {
        total_kv_blocks: Some(100),
        disaggregation_mode: Some(DisaggregationMode::Split),
    };
    let mut configs = HashMap::new();
    configs.insert(2, config);
    configs.insert(9, config);
    let table = worker_table(&vec![3, 2, 3, 1, 2], &configs);
    assert_eq!(
        table,
        vec![
            Worker { worker_id: 3, config: None },
            Worker { worker_id: 2, config: Some(config) },
            Worker { worker_id: 1, config: None },
        ]
    );
    assert_eq!(worker_ids(&table), vec![3, 2, 1]);
    assert!(worker_table(&Vec::new(), &configs).is_empty());
}

#[test]
fn potential_loads_fall_back_to_the_request() {
    let decode: HashMap<i64, usize> = [(1, 4)].into_iter().collect();
    let prefill: HashMap<i64, usize> = [(1, 64), (2, 32)].into_iter().collect();
    let loads = get_potential_loads(&vec![1, 2, 3], &decode, &prefill, 100);
    assert_eq!(
        loads,
        vec![
            PotentialLoad { worker_id: 1, potential_prefill_tokens: 64, potential_decode_blocks: 4 },
            PotentialLoad { worker_id: 2, potential_prefill_tokens: 32, potential_decode_blocks: 0 },
            PotentialLoad { worker_id: 3, potential_prefill_tokens: 100, potential_decode_blocks: 0 },
        ]
    );
}

#[test]
fn error_texts() {
    assert_eq!(KvSchedulerError::NoEndpoints.message(), "no endpoints aviailable to route work");
    assert_eq!(KvSchedulerError::AllWorkersBusy.message(), "all workers busy");
    assert_eq!(KvSchedulerError::SubscriberShutdown.message(), "endpoint subscriber shutdown");
}
