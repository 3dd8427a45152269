use kv_router::protocols::{
    DisaggregationMode, KvRouterConfig, KvSchedulerError, RouterConfigOverride, Worker,
    WorkerRuntimeConfig, WorkerSelectionResult,
};
use kv_router::sampling::Candidate;
use kv_router::scheduler::{OverlapScores, SchedulingRequest};
use kv_router::selector::{
    cost_worker, required_blocks, selection_result, DefaultWorkerSelector, Selection,
};
use std::collections::HashMap;

fn make_request(
    isl: usize,
    prefill: &[(i64, usize)],
    decode: &[(i64, usize)],
    overlaps: &[(i64, u32)],
    config: Option<RouterConfigOverride>,
) -> SchedulingRequest {
    let scores: HashMap<i64, u32> = overlaps.iter().copied().collect();
    let mut request = SchedulingRequest::new(
        Some("r".to_string()),
        isl,
        None,
        OverlapScores { scores },
        config,
        true,
    );
    request.prefill_tokens = prefill.iter().copied().collect();
    request.decode_blocks = decode.iter().copied().collect();
    request
}

fn bare(ids: &[i64]) -> Vec<Worker> {
    ids.iter().map(|&worker_id| Worker { worker_id, config: None }).collect()
}

fn chosen(selection: Result<Selection, KvSchedulerError>) -> WorkerSelectionResult {
    match selection {
        Ok(Selection::Chosen(result)) => result,
        Ok(Selection::Weighted(_)) => panic!("expected a chosen worker, got a weighted draw"),
        Err(e) => panic!("expected a chosen worker, got {:?}", e),
    }
}

#[test]
fn single_worker_takes_any_request() {
    let selector = DefaultWorkerSelector::default();
    let request = make_request(10, &[], &[], &[], None);
    let result = chosen(selector.select_worker(&bare(&[7]), &request, 4));
    assert_eq!(
        result,
        WorkerSelectionResult { worker_id: 7, required_blocks: 3, overlap_blocks: 0 }
    );
}

#[test]
fn zero_temperature_takes_the_smallest_logit() {
    let config = KvRouterConfig { overlap_score_weight_milli: 1000, router_temperature_milli: 0 };
    let selector = DefaultWorkerSelector::new(Some(config), false, 1024);
    let request = make_request(
        100,
        &[(1, 100), (2, 100), (3, 100)],
        &[(1, 5), (2, 3), (3, 7)],
        &[],
        None,
    );
    for _ in 0..20 {
        let result = chosen(selector.select_worker(&bare(&[1, 2, 3]), &request, 10));
        assert_eq!(result.worker_id, 2);
        assert_eq!(result.required_blocks, 10);
    }
    // logit 13 for worker 2, scaled by 1000 * block_size
    let found = selector.candidates(&bare(&[1, 2, 3]), &request, 10);
    assert_eq!(
        found,
        vec![
            Candidate { worker_id: 1, cost: 150_000 },
            Candidate { worker_id: 2, cost: 130_000 },
            Candidate { worker_id: 3, cost: 170_000 },
        ]
    );
}

#[test]
fn overlap_dominates_with_a_heavy_weight() {
    let config = KvRouterConfig { overlap_score_weight_milli: 10_000, router_temperature_milli: 0 };
    let selector = DefaultWorkerSelector::new(Some(config), false, 1024);
    let request = make_request(
        100,
        &[(1, 100), (2, 50), (3, 100)],
        &[(1, 5), (2, 3), (3, 7)],
        &[(2, 5)],
        None,
    );
    let result = chosen(selector.select_worker_with_draw(&bare(&[1, 2, 3]), &request, 10, 0));
    assert_eq!(
        result,
        WorkerSelectionResult { worker_id: 2, required_blocks: 10, overlap_blocks: 5 }
    );
    let found = selector.candidates(&bare(&[1, 2, 3]), &request, 10);
    let costs: Vec<i128> = found.iter().map(|c| c.cost).collect();
    // logits 105, 53 and 107, scaled by 1000 * block_size
    assert_eq!(costs, vec![1_050_000, 530_000, 1_070_000]);
}

#[test]
fn length_gate_sends_long_inputs_to_separated_workers() {
    let separated = WorkerRuntimeConfig {
        total_kv_blocks: Some(64),
        disaggregation_mode: Some(DisaggregationMode::Split),
    };
    let monolithic = WorkerRuntimeConfig {
        total_kv_blocks: None,
        disaggregation_mode: Some(DisaggregationMode::PrefillAndDecode),
    };
    let workers = vec![
        Worker { worker_id: 1, config: Some(separated) },
        Worker { worker_id: 2, config: Some(monolithic) },
    ];
    let selector = DefaultWorkerSelector::new(None, true, 1024);

    let long = make_request(2048, &[], &[], &[], None);
    let found = selector.candidates(&workers, &long, 16);
    assert_eq!(found.len(), 1);
    assert_eq!(found[0].worker_id, 1);
    assert_eq!(chosen(selector.select_worker(&workers, &long, 16)).worker_id, 1);

    let short = make_request(1023, &[], &[], &[], None);
    assert_eq!(chosen(selector.select_worker(&workers, &short, 16)).worker_id, 2);

    let exact = make_request(1024, &[], &[], &[], None);
    assert_eq!(chosen(selector.select_worker(&workers, &exact, 16)).worker_id, 1);
}

#[test]
fn length_gate_treats_missing_config_as_monolithic() {
    let no_mode = WorkerRuntimeConfig { total_kv_blocks: Some(8), disaggregation_mode: None };
    let selector = DefaultWorkerSelector::new(None, true, 100);
    assert!(selector.is_candidate(&None, 99));
    assert!(!selector.is_candidate(&None, 100));
    assert!(selector.is_candidate(&Some(no_mode), 99));
    assert!(!selector.is_candidate(&Some(no_mode), 100));
    let open = DefaultWorkerSelector::new(None, false, 100);
    assert!(open.is_candidate(&None, 100_000));
}

#[test]
fn empty_workers_give_no_endpoints() {
    let selector = DefaultWorkerSelector::default();
    let request = make_request(10, &[], &[], &[], None);
    match selector.select_worker(&Vec::new(), &request, 4) {
        Err(e) => assert_eq!(e, KvSchedulerError::NoEndpoints),
        Ok(_) => panic!("no worker can be chosen from none"),
    }
    match selector.select_worker_with_draw(&Vec::new(), &request, 4, 3) {
        Err(e) => assert_eq!(e, KvSchedulerError::NoEndpoints),
        Ok(_) => panic!("no worker can be chosen from none"),
    }
}

#[test]
fn gate_that_excludes_everyone_gives_no_endpoints() {
    let selector = DefaultWorkerSelector::new(None, true, 10);
    let request = make_request(50, &[], &[], &[], None);
    match selector.select_worker(&bare(&[1, 2]), &request, 4) {
        Err(e) => assert_eq!(e, KvSchedulerError::NoEndpoints),
        Ok(_) => panic!("the input-length gate admits no monolithic worker for a long input"),
    }
}

#[test]
fn positive_temperature_with_distinct_costs_asks_for_weights() {
    let config = KvRouterConfig { overlap_score_weight_milli: 1000, router_temperature_milli: 500 };
    let selector = DefaultWorkerSelector::new(Some(config), false, 0);
    let request = make_request(100, &[(1, 100), (2, 50)], &[(1, 1), (2, 1)], &[], None);
    match selector.select_worker(&bare(&[1, 2]), &request, 10) {
        Ok(Selection::Weighted(found)) => {
            assert_eq!(
                found,
                vec![
                    Candidate { worker_id: 1, cost: 110_000 },
                    Candidate { worker_id: 2, cost: 60_000 },
                ]
            );
        }
        _ => panic!("expected a weighted draw"),
    }
}

#[test]
fn request_override_replaces_the_tunables() {
    let config = KvRouterConfig { overlap_score_weight_milli: 1000, router_temperature_milli: 900 };
    let selector = DefaultWorkerSelector::new(Some(config), false, 0);
    let over = RouterConfigOverride {
        overlap_score_weight_milli: Some(0),
        router_temperature_milli: Some(0),
    };
    let request = make_request(100, &[(1, 10), (2, 100)], &[(1, 4), (2, 2)], &[], Some(over));
    assert_eq!(selector.overlap_score_weight(&request), 0);
    assert_eq!(selector.router_temperature(&request), 0);
    // with no weight on prefill only the decode blocks count
    assert_eq!(chosen(selector.select_worker(&bare(&[1, 2]), &request, 10)).worker_id, 2);

    let partial = RouterConfigOverride {
        overlap_score_weight_milli: None,
        router_temperature_milli: Some(0),
    };
    let request = make_request(100, &[(1, 10), (2, 100)], &[(1, 4), (2, 2)], &[], Some(partial));
    assert_eq!(selector.overlap_score_weight(&request), 1000);
    // logits 1 + 4 and 10 + 2
    assert_eq!(chosen(selector.select_worker(&bare(&[1, 2]), &request, 10)).worker_id, 1);
}

#[test]
fn cost_defaults_follow_the_request_length() {
    let request = make_request(25, &[], &[], &[], None);
    // prefill defaults to 25 tokens, decode to the 2 whole blocks of them
    assert_eq!(
        cost_worker(1500, &request, 10, 9),
        Candidate { worker_id: 9, cost: 1500 * 25 + 1000 * 10 * 2 }
    );
    let request = make_request(25, &[(9, 40)], &[], &[], None);
    assert_eq!(cost_worker(1000, &request, 10, 9).cost, 1000 * 40 + 1000 * 10 * 4);
    let request = make_request(25, &[(9, 40)], &[(9, 0)], &[], None);
    assert_eq!(cost_worker(1000, &request, 10, 9).cost, 40_000);
}

#[test]
fn cost_fits_at_the_largest_inputs() {
    let request = make_request(1, &[(1, usize::MAX)], &[(1, usize::MAX)], &[], None);
    let cost = cost_worker(u32::MAX, &request, u32::MAX, 1).cost;
    let expected = (u32::MAX as i128) * (usize::MAX as i128)
        + 1000 * (u32::MAX as i128) * (usize::MAX as i128);
    assert_eq!(cost, expected);
}

#[test]
fn required_blocks_round_up() {
    assert_eq!(required_blocks(10, 4), 3);
    assert_eq!(required_blocks(8, 4), 2);
    assert_eq!(required_blocks(1, 4), 1);
    assert_eq!(required_blocks(0, 4), 0);
    assert_eq!(required_blocks(100, 1), 100);
    assert_eq!(required_blocks(usize::MAX, 1), usize::MAX as u64);
    assert_eq!(required_blocks(usize::MAX, 2), (usize::MAX / 2) as u64 + 1);
}

#[test]
fn selection_result_reads_the_overlap() {
    let request = make_request(33, &[], &[], &[(5, 2)], None);
    assert_eq!(
        selection_result(&request, 16, 5),
        WorkerSelectionResult { worker_id: 5, required_blocks: 3, overlap_blocks: 2 }
    );
    assert_eq!(
        selection_result(&request, 16, 6),
        WorkerSelectionResult { worker_id: 6, required_blocks: 3, overlap_blocks: 0 }
    );
}

#[test]
fn default_selector_has_no_gate() {
    let selector = DefaultWorkerSelector::default();
    assert_eq!(selector.kv_router_config, KvRouterConfig::default());
    assert_eq!(selector.kv_router_config.overlap_score_weight_milli, 1000);
    assert_eq!(selector.kv_router_config.router_temperature_milli, 0);
    assert!(!selector.use_isl_threshold);
}
