//! Plain data exchanged between the router's parts.

use vstd::prelude::*;

verus! {

/// Identity of a model-serving worker.
pub type WorkerId = i64;

/// Hash of a contiguous token-block prefix.
pub type SequenceHash = u64;

/// Cache-hit record published after each routing decision.
#[derive(Debug, Clone, Copy, PartialEq, Eq, Structural)]
pub struct KVHitRateEvent {
    pub worker_id: i64,
    pub isl_blocks: usize,
    pub overlap_blocks: u32,
}

/// Load a worker would carry if the request were placed on it.
#[derive(Debug, Clone, Copy, PartialEq, Eq, Structural)]
pub struct PotentialLoad {
    pub worker_id: i64,
    pub potential_prefill_tokens: usize,
    pub potential_decode_blocks: usize,
}

/// Why a routing decision could not be made.
#[derive(Debug, Clone, Copy, PartialEq, Eq, Structural)]
pub enum KvSchedulerError {
    NoEndpoints,
    AllWorkersBusy,
    SubscriberShutdown,
}

impl KvSchedulerError {
    /// Human-readable text of the error.
    pub fn message(&self) -> (text: String)
        ensures
            *self == KvSchedulerError::NoEndpoints ==> text@
                == "no endpoints aviailable to route work"@,
            *self == KvSchedulerError::AllWorkersBusy ==> text@ == "all workers busy"@,
            *self == KvSchedulerError::SubscriberShutdown ==> text@
                == "endpoint subscriber shutdown"@,
    {
        match self {
            KvSchedulerError::NoEndpoints => "no endpoints aviailable to route work".to_owned(),
            KvSchedulerError::AllWorkersBusy => "all workers busy".to_owned(),
            KvSchedulerError::SubscriberShutdown => "endpoint subscriber shutdown".to_owned(),
        }
    }
}

/// Reply handed back to the caller of the scheduler.
#[derive(Debug, Clone, Copy, PartialEq, Eq, Structural)]
pub struct SchedulingResponse {
    pub best_worker_id: i64,
    pub overlap_blocks: u32,
}

/// Outcome of one worker selection.
#[derive(Debug, Clone, Copy, PartialEq, Eq, Structural)]
pub struct WorkerSelectionResult {
    pub worker_id: i64,
    pub required_blocks: u64,
    pub overlap_blocks: u32,
}

/// How a worker splits the two phases of generation.
#[derive(Debug, Clone, Copy, PartialEq, Eq, Structural)]
pub enum DisaggregationMode {
    PrefillAndDecode,
    Split,
}

/// Capabilities a worker announces about itself.
#[derive(Debug, Clone, Copy, PartialEq, Eq, Structural)]
pub struct WorkerRuntimeConfig {
    pub total_kv_blocks: Option<u64>,
    pub disaggregation_mode: Option<DisaggregationMode>,
}

/// A live worker together with its announced capabilities, if any.
#[derive(Debug, Clone, Copy, PartialEq, Eq, Structural)]
pub struct Worker {
    pub worker_id: i64,
    pub config: Option<WorkerRuntimeConfig>,
}

/// The router's two tunables, in thousandths.
#[derive(Debug, Clone, Copy, PartialEq, Eq, Structural)]
pub struct KvRouterConfig {
    /// Weight of predicted prefill blocks relative to decode blocks.
    pub overlap_score_weight_milli: u32,
    /// Softmax temperature; zero selects the cheapest worker.
    pub router_temperature_milli: u32,
}

impl Default for KvRouterConfig {
    fn default() -> (config: Self)
        ensures
            config.overlap_score_weight_milli == 1000,
            config.router_temperature_milli == 0,
    {
        KvRouterConfig { overlap_score_weight_milli: 1000, router_temperature_milli: 0 }
    }
}

/// Per-request replacement of either tunable.
#[derive(Debug, Clone, Copy, PartialEq, Eq, Structural)]
pub struct RouterConfigOverride {
    pub overlap_score_weight_milli: Option<u32>,
    pub router_temperature_milli: Option<u32>,
}

} // verus!
