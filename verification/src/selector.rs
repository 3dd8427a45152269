//! The default worker selector: which workers are candidates, what each
//! would cost, and the bookkeeping result for the chosen one.

use crate::protocols::{
    DisaggregationMode, KvRouterConfig, KvSchedulerError, RouterConfigOverride, Worker,
    WorkerRuntimeConfig, WorkerSelectionResult,
};
use crate::sampling::{
    is_cheapest_key, is_weighted, outcomes, sample_of, sample_with_draw, softmax_sample,
    Candidate, Sample,
};
use crate::scheduler::SchedulingRequest;
use vstd::prelude::*;

verus! {

broadcast use vstd::std_specs::hash::group_hash_axioms;

/// Number of blocks needed to hold `tokens` tokens: the quotient rounded up.
pub open spec fn ceil_div(tokens: nat, block_size: nat) -> nat
    recommends
        block_size > 0,
{
    if tokens % block_size == 0 {
        tokens / block_size
    } else {
        tokens / block_size + 1
    }
}

/// Whether a worker serves only one phase of generation. A worker that
/// announces no configuration, or no mode, is taken to serve both.
pub open spec fn is_pd_separated(config: Option<WorkerRuntimeConfig>) -> bool {
    match config {
        Some(c) => c.disaggregation_mode == Some(DisaggregationMode::Split),
        None => false,
    }
}

/// Whether the input-length gate lets a worker be a candidate. Without a
/// gate every worker is one; with one, workers that serve both phases
/// take inputs below the threshold and the others take the rest.
pub open spec fn admits(gate: Option<usize>, config: Option<WorkerRuntimeConfig>, isl: usize) -> bool {
    match gate {
        None => true,
        Some(threshold) => if is_pd_separated(config) {
            isl >= threshold
        } else {
            isl < threshold
        },
    }
}

/// Prefill tokens worker `w` would hold with the request; the request's
/// own length when nothing is predicted for the worker.
pub open spec fn prefill_tokens_of(request: SchedulingRequest, w: i64) -> nat {
    if request.prefill_tokens@.contains_key(w) {
        request.prefill_tokens@[w] as nat
    } else {
        request.isl_tokens as nat
    }
}

/// Decode blocks worker `w` would hold with the request; the whole
/// blocks of its prefill tokens when nothing is predicted for the worker.
pub open spec fn decode_blocks_of(request: SchedulingRequest, w: i64, block_size: nat) -> nat {
    if request.decode_blocks@.contains_key(w) {
        request.decode_blocks@[w] as nat
    } else {
        prefill_tokens_of(request, w) / block_size
    }
}

/// Leading blocks of the request already cached on worker `w`.
pub open spec fn overlap_of(request: SchedulingRequest, w: i64) -> u32 {
    if request.overlaps.scores@.contains_key(w) {
        request.overlaps.scores@[w]
    } else {
        0
    }
}

/// The logit `weight * prefill_tokens / block_size + decode_blocks`,
/// multiplied by `1000 * block_size` so that it is a whole number when
/// the weight is given in thousandths.
pub open spec fn scaled_logit(
    weight_milli: nat,
    prefill_tokens: nat,
    decode_blocks: nat,
    block_size: nat,
) -> nat {
    weight_milli * prefill_tokens + 1000 * block_size * decode_blocks
}

/// The overlap weight in force for a request, in thousandths.
pub open spec fn weight_of(config: KvRouterConfig, request: SchedulingRequest) -> u32 {
    match request.router_config_override {
        Some(RouterConfigOverride { overlap_score_weight_milli: Some(w), .. }) => w,
        _ => config.overlap_score_weight_milli,
    }
}

/// The temperature in force for a request, in thousandths.
pub open spec fn temperature_of(config: KvRouterConfig, request: SchedulingRequest) -> u32 {
    match request.router_config_override {
        Some(RouterConfigOverride { router_temperature_milli: Some(t), .. }) => t,
        _ => config.router_temperature_milli,
    }
}

/// Worker `w` as a candidate with its scaled logit as cost.
pub open spec fn candidate_of(
    weight_milli: u32,
    request: SchedulingRequest,
    block_size: u32,
    w: i64,
) -> Candidate {
    Candidate {
        worker_id: w,
        cost: scaled_logit(
            weight_milli as nat,
            prefill_tokens_of(request, w),
            decode_blocks_of(request, w, block_size as nat),
            block_size as nat,
        ) as i128,
    }
}

/// The workers that the input-length gate admits, each with its cost, in
/// worker order.
pub open spec fn candidates_of(
    gate: Option<usize>,
    weight_milli: u32,
    workers: Seq<Worker>,
    request: SchedulingRequest,
    block_size: u32,
) -> Seq<Candidate>
    decreases workers.len(),
{
    if workers.len() == 0 {
        Seq::empty()
    } else {
        let rest = candidates_of(gate, weight_milli, workers.drop_last(), request, block_size);
        let last = workers.last();
        if admits(gate, last.config, request.isl_tokens) {
            rest.push(candidate_of(weight_milli, request, block_size, last.worker_id))
        } else {
            rest
        }
    }
}

/// Whether `worker_id` names one of `workers` that the input-length gate
/// admits for a request of `isl` tokens.
pub open spec fn is_admitted_worker(
    gate: Option<usize>,
    workers: Seq<Worker>,
    isl: usize,
    worker_id: i64,
) -> bool {
    exists|i: int|
        0 <= i < workers.len() && (#[trigger] workers[i]).worker_id == worker_id && admits(
            gate,
            workers[i].config,
            isl,
        )
}

/// Every candidate is an admitted worker, costed by its scaled logit, and
/// there are no more candidates than workers.
pub proof fn lemma_candidates_are_workers(
    gate: Option<usize>,
    weight_milli: u32,
    workers: Seq<Worker>,
    request: SchedulingRequest,
    block_size: u32,
)
    ensures
        candidates_of(gate, weight_milli, workers, request, block_size).len() <= workers.len(),
        forall|k: int|
            0 <= k < candidates_of(gate, weight_milli, workers, request, block_size).len() ==> {
                let c = #[trigger] candidates_of(gate, weight_milli, workers, request, block_size)[k];
                &&& is_admitted_worker(gate, workers, request.isl_tokens, c.worker_id)
                &&& c == candidate_of(weight_milli, request, block_size, c.worker_id)
            },
    decreases workers.len(),
{
    if workers.len() > 0 {
        let front = workers.drop_last();
        lemma_candidates_are_workers(gate, weight_milli, front, request, block_size);
        let rest = candidates_of(gate, weight_milli, front, request, block_size);
        let all = candidates_of(gate, weight_milli, workers, request, block_size);
        assert forall|k: int| 0 <= k < all.len() implies ({
            let c = #[trigger] all[k];
            &&& is_admitted_worker(gate, workers, request.isl_tokens, c.worker_id)
            &&& c == candidate_of(weight_milli, request, block_size, c.worker_id)
        }) by {
            if k < rest.len() {
                assert(all[k] == rest[k]);
                assert(is_admitted_worker(gate, front, request.isl_tokens, rest[k].worker_id));
                let i = choose|i: int|
                    0 <= i < front.len() && (#[trigger] front[i]).worker_id == rest[k].worker_id
                        && admits(gate, front[i].config, request.isl_tokens);
                assert(workers[i] == front[i]);
            } else {
                let i = workers.len() - 1;
                assert(workers[i].worker_id == all[k].worker_id);
            }
        }
    }
}

/// A chosen worker is one of the workers, and one that the input-length
/// gate admits.
pub proof fn lemma_chosen_is_a_worker(
    selector: DefaultWorkerSelector,
    workers: Seq<Worker>,
    request: SchedulingRequest,
    block_size: u32,
    chosen: WorkerSelectionResult,
)
    requires
        selector.selects(workers, request, block_size, Ok(Selection::Chosen(chosen))),
    ensures
        is_admitted_worker(selector.gate(), workers, request.isl_tokens, chosen.worker_id),
{
    let weight = weight_of(selector.kv_router_config, request);
    let found = candidates_of(selector.gate(), weight, workers, request, block_size);
    lemma_candidates_are_workers(selector.gate(), weight, workers, request, block_size);
    let i = choose|i: int| #[trigger]
        crate::sampling::is_cheapest(found, i) && found[i].worker_id == chosen.worker_id;
    assert(is_admitted_worker(selector.gate(), workers, request.isl_tokens, found[i].worker_id));
}

/// The bookkeeping result for a request placed on worker `w`.
pub open spec fn result_of(request: SchedulingRequest, block_size: u32, w: i64)
    -> WorkerSelectionResult {
    WorkerSelectionResult {
        worker_id: w,
        required_blocks: ceil_div(request.isl_tokens as nat, block_size as nat) as u64,
        overlap_blocks: overlap_of(request, w),
    }
}

/// The rounded-up quotient holds the tokens, and is positive and no
/// larger than the token count when there are tokens.
pub proof fn lemma_ceil_div_holds(tokens: nat, block_size: nat)
    requires
        block_size > 0,
    ensures
        ceil_div(tokens, block_size) * block_size >= tokens,
        ceil_div(tokens, block_size) <= tokens,
        tokens > 0 ==> ceil_div(tokens, block_size) > 0,
{
    let q = tokens / block_size;
    let r = tokens % block_size;
    assert(tokens == q * block_size + r && 0 <= r < block_size) by (nonlinear_arith)
        requires
            q == tokens / block_size,
            r == tokens % block_size,
            block_size > 0,
    ;
    assert((q + 1) * block_size == q * block_size + block_size) by (nonlinear_arith);
    assert(q * block_size >= q) by (nonlinear_arith)
        requires
            block_size > 0,
    ;
}

/// No smaller number of blocks holds the tokens.
pub proof fn lemma_ceil_div_is_least(tokens: nat, block_size: nat, n: nat)
    requires
        block_size > 0,
        n * block_size >= tokens,
    ensures
        n >= ceil_div(tokens, block_size),
{
    let q = tokens / block_size;
    let r = tokens % block_size;
    assert(tokens == q * block_size + r && 0 <= r < block_size) by (nonlinear_arith)
        requires
            q == tokens / block_size,
            r == tokens % block_size,
            block_size > 0,
    ;
    if n < ceil_div(tokens, block_size) {
        if r == 0 {
            assert(n * block_size < q * block_size) by (nonlinear_arith)
                requires
                    n < q,
                    block_size > 0,
            ;
        } else {
            assert(n * block_size <= q * block_size) by (nonlinear_arith)
                requires
                    n <= q,
                    block_size > 0,
            ;
        }
    }
}

/// A selection: either a worker, or the candidates to draw from with
/// softmax weights.
pub enum Selection {
    Chosen(WorkerSelectionResult),
    Weighted(Vec<Candidate>),
}

/// Selector that costs each worker by its predicted prefill and decode
/// load and samples by temperature.
#[derive(Debug, Clone, Copy)]
pub struct DefaultWorkerSelector {
    pub kv_router_config: KvRouterConfig,
    /// Whether the input-length gate is in force.
    pub use_isl_threshold: bool,
    /// Input length, in tokens, at which the input-length gate switches sides.
    pub isl_threshold: usize,
}

impl Default for DefaultWorkerSelector {
    fn default() -> (selector: Self)
        ensures
            selector.kv_router_config.overlap_score_weight_milli == 1000,
            selector.kv_router_config.router_temperature_milli == 0,
            selector.gate() is None,
    {
        DefaultWorkerSelector {
            kv_router_config: KvRouterConfig {
                overlap_score_weight_milli: 1000,
                router_temperature_milli: 0,
            },
            use_isl_threshold: false,
            isl_threshold: 0,
        }
    }
}

impl DefaultWorkerSelector {
    /// The threshold of the input-length gate, when it is enabled.
    pub open spec fn gate(&self) -> Option<usize> {
        if self.use_isl_threshold {
            Some(self.isl_threshold)
        } else {
            None
        }
    }

    /// What a selection among `workers` may be for `request`.
    ///
    /// It is the error `NoEndpoints` exactly when no worker is a
    /// candidate. It is a chosen worker exactly when there are candidates
    /// and the choice needs no softmax weights; the worker is then one of
    /// the cheapest candidates, and the result carries the blocks that
    /// the input needs and the blocks that the worker caches. In every
    /// other case it is the candidates themselves.
    pub open spec fn selects(
        &self,
        workers: Seq<Worker>,
        request: SchedulingRequest,
        block_size: u32,
        selection: Result<Selection, KvSchedulerError>,
    ) -> bool {
        let found = candidates_of(
            self.gate(),
            weight_of(self.kv_router_config, request),
            workers,
            request,
            block_size,
        );
        let temperature = temperature_of(self.kv_router_config, request);
        match selection {
            Err(e) => e == KvSchedulerError::NoEndpoints && found.len() == 0,
            Ok(Selection::Chosen(chosen)) => {
                &&& found.len() > 0
                &&& !is_weighted(found, temperature)
                &&& outcomes(found, temperature).contains(chosen.worker_id)
                &&& is_cheapest_key(found, chosen.worker_id)
                &&& chosen == result_of(request, block_size, chosen.worker_id)
            },
            Ok(Selection::Weighted(logits)) => {
                &&& found.len() > 0
                &&& is_weighted(found, temperature)
                &&& logits@ == found
            },
        }
    }

    /// A selector with the given tunables, or the default ones, and the
    /// input-length gate as resolved by the caller.
    pub fn new(
        kv_router_config: Option<KvRouterConfig>,
        use_isl_threshold: bool,
        isl_threshold: usize,
    ) -> (selector: Self)
        ensures
            selector.kv_router_config == match kv_router_config {
                Some(c) => c,
                None => (KvRouterConfig {
                    overlap_score_weight_milli: 1000,
                    router_temperature_milli: 0,
                }),
            },
            selector.gate() == if use_isl_threshold {
                Some(isl_threshold)
            } else {
                None
            },
    {
        let config = match kv_router_config {
            Some(c) => c,
            None => KvRouterConfig { overlap_score_weight_milli: 1000, router_temperature_milli: 0 },
        };
        DefaultWorkerSelector { kv_router_config: config, use_isl_threshold, isl_threshold }
    }

    /// Whether the input-length gate lets a worker with this configuration take a
    /// request of `isl` tokens.
    pub fn is_candidate(&self, config: &Option<WorkerRuntimeConfig>, isl: usize) -> (admitted: bool)
        ensures
            admitted == admits(self.gate(), *config, isl),
    {
        if !self.use_isl_threshold {
            return true;
        }
        let separated = match config {
            Some(c) => match c.disaggregation_mode {
                Some(DisaggregationMode::Split) => true,
                _ => false,
            },
            None => false,
        };
        if separated {
            isl >= self.isl_threshold
        } else {
            isl < self.isl_threshold
        }
    }

    /// The overlap weight in force for `request`, in thousandths.
    pub fn overlap_score_weight(&self, request: &SchedulingRequest) -> (weight: u32)
        ensures
            weight == weight_of(self.kv_router_config, *request),
    {
        match &request.router_config_override {
            Some(RouterConfigOverride { overlap_score_weight_milli: Some(w), .. }) => *w,
            _ => self.kv_router_config.overlap_score_weight_milli,
        }
    }

    /// The temperature in force for `request`, in thousandths.
    pub fn router_temperature(&self, request: &SchedulingRequest) -> (temperature: u32)
        ensures
            temperature == temperature_of(self.kv_router_config, *request),
    {
        match &request.router_config_override {
            Some(RouterConfigOverride { router_temperature_milli: Some(t), .. }) => *t,
            _ => self.kv_router_config.router_temperature_milli,
        }
    }

    /// The candidates for `request` among `workers`, each with its cost.
    pub fn candidates(
        &self,
        workers: &Vec<Worker>,
        request: &SchedulingRequest,
        block_size: u32,
    ) -> (found: Vec<Candidate>)
        requires
            block_size > 0,
        ensures
            found@ == candidates_of(
                self.gate(),
                weight_of(self.kv_router_config, *request),
                workers@,
                *request,
                block_size,
            ),
    {
        let weight = self.overlap_score_weight(request);
        let mut found: Vec<Candidate> = Vec::new();
        let mut i: usize = 0;
        while i < workers.len()
            invariant
                i <= workers.len(),
                block_size > 0,
                weight == weight_of(self.kv_router_config, *request),
                found@ == candidates_of(
                    self.gate(),
                    weight,
                    workers@.take(i as int),
                    *request,
                    block_size,
                ),
            decreases workers.len() - i,
        {
            assert(workers@.take(i + 1).drop_last() =~= workers@.take(i as int));
            assert(workers@.take(i + 1).last() == workers@[i as int]);
            let worker = &workers[i];
            if self.is_candidate(&worker.config, request.isl_tokens) {
                found.push(cost_worker(weight, request, block_size, worker.worker_id));
            }
            i += 1;
        }
        assert(workers@.take(i as int) =~= workers@);
        found
    }

    /// Chooses a worker for `request` with a random draw.
    ///
    /// Fails with `NoEndpoints` exactly when no worker is a candidate.
    /// Otherwise the choice is a cheapest candidate when the temperature
    /// is zero, any candidate when all cost the same, and is left to a
    /// softmax-weighted draw over the returned candidates in every other
    /// case.
    pub fn select_worker(
        &self,
        workers: &Vec<Worker>,
        request: &SchedulingRequest,
        block_size: u32,
    ) -> (selection: Result<Selection, KvSchedulerError>)
        requires
            request.isl_tokens > 0,
            block_size > 0,
        ensures
            self.selects(workers@, *request, block_size, selection),
            workers.len() == 0 ==> selection is Err,
    {
        let found = self.candidates(workers, request, block_size);
        if found.len() == 0 {
            return Err(KvSchedulerError::NoEndpoints);
        }
        match softmax_sample(&found, self.router_temperature(request)) {
            Sample::Key(key) => Ok(Selection::Chosen(selection_result(request, block_size, key))),
            Sample::Weighted => Ok(Selection::Weighted(found)),
        }
    }

    /// Chooses a worker for `request` with `draw` in place of the random
    /// draw, so that equal inputs give equal results.
    pub fn select_worker_with_draw(
        &self,
        workers: &Vec<Worker>,
        request: &SchedulingRequest,
        block_size: u32,
        draw: usize,
    ) -> (selection: Result<Selection, KvSchedulerError>)
        requires
            request.isl_tokens > 0,
            block_size > 0,
        ensures
            ({
                let found = candidates_of(
                    self.gate(),
                    weight_of(self.kv_router_config, *request),
                    workers@,
                    *request,
                    block_size,
                );
                let temperature = temperature_of(self.kv_router_config, *request);
                match selection {
                    Err(e) => e == KvSchedulerError::NoEndpoints && found.len() == 0,
                    Ok(Selection::Chosen(chosen)) => {
                        &&& found.len() > 0
                        &&& sample_of(found, temperature, draw) == Sample::Key(chosen.worker_id)
                        &&& chosen == result_of(*request, block_size, chosen.worker_id)
                    },
                    Ok(Selection::Weighted(logits)) => {
                        &&& found.len() > 0
                        &&& sample_of(found, temperature, draw) == Sample::Weighted
                        &&& logits@ == found
                    },
                }
            }),
    {
        let found = self.candidates(workers, request, block_size);
        if found.len() == 0 {
            return Err(KvSchedulerError::NoEndpoints);
        }
        match sample_with_draw(&found, self.router_temperature(request), draw) {
            Sample::Key(key) => Ok(Selection::Chosen(selection_result(request, block_size, key))),
            Sample::Weighted => Ok(Selection::Weighted(found)),
        }
    }
}

/// Blocks needed for `isl_tokens` tokens.
pub fn required_blocks(isl_tokens: usize, block_size: u32) -> (blocks: u64)
    requires
        block_size > 0,
    ensures
        blocks == ceil_div(isl_tokens as nat, block_size as nat),
        blocks * block_size >= isl_tokens,
        isl_tokens > 0 ==> (blocks - 1) * block_size < isl_tokens,
{
    let size = block_size as usize;
    let whole = isl_tokens / size;
    proof {
        lemma_ceil_div_holds(isl_tokens as nat, block_size as nat);
        if isl_tokens > 0 {
            let fewer = (ceil_div(isl_tokens as nat, block_size as nat) - 1) as nat;
            if fewer * block_size >= isl_tokens {
                lemma_ceil_div_is_least(isl_tokens as nat, block_size as nat, fewer);
            }
        }
    }
    if isl_tokens % size == 0 {
        whole as u64
    } else {
        (whole + 1) as u64
    }
}

/// The bookkeeping result for `request` placed on `worker_id`: the blocks
/// the input needs and the blocks the worker already caches.
pub fn selection_result(request: &SchedulingRequest, block_size: u32, worker_id: i64) -> (result:
    WorkerSelectionResult)
    requires
        block_size > 0,
    ensures
        result == result_of(*request, block_size, worker_id),
        result.worker_id == worker_id,
        result.required_blocks == ceil_div(request.isl_tokens as nat, block_size as nat),
{
    let overlap = match request.overlaps.scores.get(&worker_id) {
        Some(o) => *o,
        None => 0,
    };
    WorkerSelectionResult {
        worker_id,
        required_blocks: required_blocks(request.isl_tokens, block_size),
        overlap_blocks: overlap,
    }
}

proof fn lemma_product_bound(a: int, b: int, max_a: int, max_b: int)
    requires
        0 <= a <= max_a,
        0 <= b <= max_b,
    ensures
        0 <= a * b <= max_a * max_b,
{
    assert(0 <= a * b <= max_a * max_b) by (nonlinear_arith)
        requires
            0 <= a <= max_a,
            0 <= b <= max_b,
    ;
}

/// Worker `worker_id` as a candidate for `request`, costed by its scaled
/// logit under the given weight.
pub fn cost_worker(weight_milli: u32, request: &SchedulingRequest, block_size: u32, worker_id: i64)
    -> (candidate: Candidate)
    requires
        block_size > 0,
    ensures
        candidate == candidate_of(weight_milli, *request, block_size, worker_id),
        candidate.cost == scaled_logit(
            weight_milli as nat,
            prefill_tokens_of(*request, worker_id),
            decode_blocks_of(*request, worker_id, block_size as nat),
            block_size as nat,
        ),
{
    let prefill: usize = match request.prefill_tokens.get(&worker_id) {
        Some(p) => *p,
        None => request.isl_tokens,
    };
    let decode: usize = match request.decode_blocks.get(&worker_id) {
        Some(d) => *d,
        None => prefill / (block_size as usize),
    };
    proof {
        lemma_product_bound(
            weight_milli as int,
            prefill as int,
            0xFFFF_FFFFint,
            0xFFFF_FFFF_FFFF_FFFFint,
        );
        lemma_product_bound(
            1000 * (block_size as int),
            decode as int,
            4_294_967_295_000int,
            0xFFFF_FFFF_FFFF_FFFFint,
        );
    }
    let prefill_part: i128 = (weight_milli as i128) * (prefill as i128);
    let decode_part: i128 = (1000 * (block_size as i128)) * (decode as i128);
    Candidate { worker_id, cost: prefill_part + decode_part }
}

} // verus!
