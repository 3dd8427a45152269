use kv_router::protocols::{
    KVHitRateEvent, KvRouterConfig, PotentialLoad, SchedulingResponse, WorkerRuntimeConfig,
    WorkerSelectionResult,
};
use kv_router::sampling::Candidate;
use kv_router::scheduler::{KvScheduler, OverlapScores, Scheduled, SchedulingRequest};
use kv_router::selector::{selection_result, DefaultWorkerSelector};
use kv_router::sequences::{uncached_tokens, ActiveSequences, LedgerError, Phase};
use std::collections::HashMap;

fn id(text: &str) -> String {
    text.to_string()
}

fn overlaps(entries: &[(i64, u32)]) -> OverlapScores {
    OverlapScores { scores: entries.iter().copied().collect() }
}

fn no_configs() -> HashMap<i64, WorkerRuntimeConfig> {
    HashMap::new()
}

fn make(request_id: Option<&str>, isl: usize, blocks: Option<Vec<u64>>, update: bool) -> SchedulingRequest {
    SchedulingRequest::new(request_id.map(id), isl, blocks, overlaps(&[]), None, update)
}

#[test]
fn uncached_tokens_never_go_below_zero() {
    assert_eq!(uncached_tokens(100, 2, 16), 68);
    assert_eq!(uncached_tokens(32, 2, 16), 0);
    assert_eq!(uncached_tokens(10, 1, 16), 0);
    assert_eq!(uncached_tokens(10, 0, 16), 10);
    assert_eq!(uncached_tokens(usize::MAX, u32::MAX, usize::MAX), 0);
}

#[test]
fn request_lives_on_one_worker_until_freed() {
    let mut ledger = ActiveSequences::new(16, vec![1, 2]);
    assert_eq!(ledger.add_request(id("a"), Some(vec![10, 11]), 32, 0, 1), Ok(()));
    assert_eq!(ledger.lookup(&id("a")), Some((1, Phase::Prefill)));
    assert_eq!(
        ledger.add_request(id("a"), None, 8, 0, 2),
        Err(LedgerError::DuplicateRequest)
    );
    assert_eq!(ledger.lookup(&id("a")), Some((1, Phase::Prefill)));
    assert_eq!(ledger.len(), 1);
    ledger.free(&id("a"));
    assert_eq!(ledger.lookup(&id("a")), None);
    assert_eq!(ledger.len(), 0);
    ledger.free(&id("a"));
    assert_eq!(ledger.len(), 0);
    assert_eq!(ledger.add_request(id("a"), None, 8, 0, 2), Ok(()));
    assert_eq!(ledger.lookup(&id("a")), Some((2, Phase::Prefill)));
}

#[test]
fn unknown_worker_is_refused() {
    let mut ledger = ActiveSequences::new(16, vec![1]);
    assert_eq!(ledger.add_request(id("a"), None, 8, 0, 9), Err(LedgerError::UnknownWorker));
    assert_eq!(ledger.len(), 0);
}

#[test]
fn prefill_completes_once() {
    let mut ledger = ActiveSequences::new(16, vec![1]);
    assert_eq!(ledger.mark_prefill_completed(&id("a")), Err(LedgerError::UnknownRequest));
    assert_eq!(ledger.add_request(id("a"), None, 40, 1, 1), Ok(()));
    assert_eq!(ledger.mark_prefill_completed(&id("a")), Ok(()));
    assert_eq!(ledger.lookup(&id("a")), Some((1, Phase::Decode)));
    assert_eq!(ledger.mark_prefill_completed(&id("a")), Err(LedgerError::IllegalTransition));
    assert_eq!(ledger.lookup(&id("a")), Some((1, Phase::Decode)));
}

#[test]
fn potential_load_counts_distinct_blocks_and_pending_tokens() {
    let mut ledger = ActiveSequences::new(16, vec![1, 2]);
    assert_eq!(ledger.add_request(id("a"), Some(vec![10, 11, 12]), 48, 1, 1), Ok(()));
    assert_eq!(ledger.add_request(id("b"), Some(vec![10, 11, 20]), 48, 0, 1), Ok(()));
    assert_eq!(ledger.add_request(id("c"), Some(vec![30]), 16, 0, 2), Ok(()));

    // worker 1 holds blocks 10, 11, 12, 20 and has 32 + 48 tokens to prefill
    assert_eq!(ledger.potential_load(1, &Some(vec![10, 99]), 32, 1), (5, 32 + 48 + 16));
    assert_eq!(ledger.potential_load(1, &None, 32, 0), (4, 32 + 48 + 32));
    assert_eq!(ledger.potential_load(2, &Some(vec![30, 30]), 5, 0), (1, 16 + 5));
    // a worker with nothing in flight
    assert_eq!(ledger.potential_load(7, &Some(vec![1, 2]), 9, 0), (2, 9));

    assert_eq!(ledger.mark_prefill_completed(&id("a")), Ok(()));
    assert_eq!(ledger.potential_load(1, &None, 0, 0), (4, 48));
    ledger.free(&id("b"));
    assert_eq!(ledger.potential_load(1, &None, 0, 0), (3, 0));

    let (decode, prefill) = ledger.potential_blocks_and_tokens(&Some(vec![10]), 20, &overlaps(&[(2, 1)]));
    assert_eq!(decode, [(1, 3), (2, 2)].into_iter().collect::<HashMap<i64, usize>>());
    assert_eq!(prefill, [(1, 20), (2, 16 + 4)].into_iter().collect::<HashMap<i64, usize>>());
}

#[test]
fn pending_tokens_saturate() {
    let mut ledger = ActiveSequences::new(1, vec![1]);
    assert_eq!(ledger.add_request(id("a"), None, usize::MAX, 0, 1), Ok(()));
    assert_eq!(ledger.add_request(id("b"), None, usize::MAX, 0, 1), Ok(()));
    assert_eq!(ledger.potential_load(1, &None, 7, 0), (0, usize::MAX));
}

#[test]
fn update_workers_drops_departed_reservations() {
    let mut ledger = ActiveSequences::new(16, vec![1, 2, 3]);
    assert_eq!(ledger.add_request(id("a"), None, 16, 0, 1), Ok(()));
    assert_eq!(ledger.add_request(id("b"), None, 16, 0, 2), Ok(()));
    assert_eq!(ledger.add_request(id("c"), None, 16, 0, 3), Ok(()));
    assert_eq!(ledger.add_request(id("d"), None, 16, 0, 2), Ok(()));
    ledger.update_workers(vec![3, 1, 4]);
    assert_eq!(ledger.worker_ids(), vec![3, 1, 4]);
    assert_eq!(ledger.len(), 2);
    assert_eq!(ledger.lookup(&id("a")), Some((1, Phase::Prefill)));
    assert_eq!(ledger.lookup(&id("b")), None);
    assert_eq!(ledger.lookup(&id("c")), Some((3, Phase::Prefill)));
    assert_eq!(ledger.lookup(&id("d")), None);
    assert_eq!(ledger.add_request(id("e"), None, 16, 0, 4), Ok(()));
    assert_eq!(ledger.add_request(id("f"), None, 16, 0, 2), Err(LedgerError::UnknownWorker));
}

#[test]
fn scheduler_records_each_committed_request_once() {
    let mut scheduler = KvScheduler::start(4, &vec![7], &no_configs(), None);
    match scheduler.schedule(make(Some("r1"), 10, Some(vec![1, 2, 3]), true)) {
        Scheduled::Dispatch { event, response, recorded } => {
            assert_eq!(event, KVHitRateEvent { worker_id: 7, isl_blocks: 3, overlap_blocks: 0 });
            assert_eq!(response, Some(SchedulingResponse { best_worker_id: 7, overlap_blocks: 0 }));
            assert_eq!(recorded, Some(Ok(())));
        }
        _ => panic!("a single worker is chosen"),
    }
    // the same id again is answered but not recorded twice
    match scheduler.schedule(make(Some("r1"), 10, None, true)) {
        Scheduled::Dispatch { response, recorded, .. } => {
            assert_eq!(response.map(|r| r.best_worker_id), Some(7));
            assert_eq!(recorded, Some(Err(LedgerError::DuplicateRequest)));
        }
        _ => panic!("a single worker is chosen"),
    }
    // a query leaves the ledger alone
    match scheduler.schedule(make(Some("r2"), 10, None, false)) {
        Scheduled::Dispatch { recorded, .. } => assert_eq!(recorded, None),
        _ => panic!("a single worker is chosen"),
    }
    match scheduler.schedule(make(None, 10, None, true)) {
        Scheduled::Dispatch { recorded, .. } => assert_eq!(recorded, None),
        _ => panic!("a single worker is chosen"),
    }
    let loads = scheduler.get_potential_loads(&None, 8, &overlaps(&[]));
    assert_eq!(
        loads,
        vec![PotentialLoad { worker_id: 7, potential_prefill_tokens: 18, potential_decode_blocks: 3 }]
    );
    assert_eq!(scheduler.mark_prefill_completed(&id("r1")), Ok(()));
    assert_eq!(scheduler.mark_prefill_completed(&id("r2")), Err(LedgerError::UnknownRequest));
    scheduler.free(&id("r1"));
    scheduler.free(&id("r1"));
    let loads = scheduler.get_potential_loads(&None, 8, &overlaps(&[]));
    assert_eq!(
        loads,
        vec![PotentialLoad { worker_id: 7, potential_prefill_tokens: 8, potential_decode_blocks: 0 }]
    );
}

#[test]
fn scheduler_balances_by_predicted_load() {
    let mut scheduler = KvScheduler::start(16, &vec![1, 2], &no_configs(), None);
    assert_eq!(scheduler.add_request(id("warm"), Some(vec![5, 6]), 32, 0, 1), Ok(()));
    // worker 1 carries 32 tokens and 2 blocks, so worker 2 is cheaper
    for n in 0..3 {
        let name = format!("n{n}");
        match scheduler.schedule(make(Some(&name), 16, Some(vec![100 + n as u64]), false)) {
            Scheduled::Dispatch { event, .. } => assert_eq!(event.worker_id, 2),
            _ => panic!("the default temperature picks the cheapest"),
        }
    }
}

#[test]
fn scheduler_without_workers_backs_off() {
    let mut scheduler = KvScheduler::start(16, &Vec::new(), &no_configs(), None);
    match scheduler.schedule(make(Some("a"), 16, None, true)) {
        Scheduled::Backoff { millis, request } => {
            assert_eq!(millis, 5);
            assert_eq!(request.maybe_request_id.as_deref(), Some("a"));
            assert!(request.prefill_tokens.is_empty());
        }
        _ => panic!("nobody can take the request"),
    }
    scheduler.update_workers(&vec![3], &no_configs());
    match scheduler.schedule(make(Some("a"), 16, None, true)) {
        Scheduled::Dispatch { event, recorded, .. } => {
            assert_eq!(event.worker_id, 3);
            assert_eq!(recorded, Some(Ok(())));
        }
        _ => panic!("the new worker is chosen"),
    }
    scheduler.update_workers(&Vec::new(), &no_configs());
    assert_eq!(scheduler.mark_prefill_completed(&id("a")), Err(LedgerError::UnknownRequest));
}

#[test]
fn weighted_choice_is_handed_back_and_committed() {
    let config = KvRouterConfig { overlap_score_weight_milli: 1000, router_temperature_milli: 700 };
    let selector = DefaultWorkerSelector::new(Some(config), false, 0);
    let mut scheduler = KvScheduler::start(16, &vec![1, 2], &no_configs(), Some(selector));
    assert_eq!(scheduler.add_request(id("warm"), None, 64, 0, 1), Ok(()));
    match scheduler.schedule(make(Some("x"), 16, None, true)) {
        Scheduled::Draw { request, candidates } => {
            assert_eq!(
                candidates,
                vec![
                    // 80 tokens to prefill and no blocks; 16 tokens and no blocks
                    Candidate { worker_id: 1, cost: 80_000 },
                    Candidate { worker_id: 2, cost: 16_000 },
                ]
            );
            let selection = selection_result(&request, 16, 2);
            assert_eq!(
                selection,
                WorkerSelectionResult { worker_id: 2, required_blocks: 1, overlap_blocks: 0 }
            );
            match scheduler.commit(request, selection) {
                Scheduled::Dispatch { event, response, recorded } => {
                    assert_eq!(event.worker_id, 2);
                    assert_eq!(response.map(|r| r.best_worker_id), Some(2));
                    assert_eq!(recorded, Some(Ok(())));
                }
                _ => panic!("a commit dispatches"),
            }
        }
        _ => panic!("distinct costs at a positive temperature need a draw"),
    }
}
