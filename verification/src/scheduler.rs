//! The scheduling request and the decisions of the scheduler loop.

use crate::protocols::{
    KVHitRateEvent, KvSchedulerError, PotentialLoad, RouterConfigOverride, SchedulingResponse,
    Worker, WorkerRuntimeConfig, WorkerSelectionResult,
};
use crate::sampling::Candidate;
use crate::selector::{DefaultWorkerSelector, Selection};
use crate::sequences::{
    appended, blocks_of, frees, has_request, kept_of, marks, new_tokens_of, overlap_on, potential_blocks_of,
    potential_prefill_of, ActiveSequences, LedgerError,
};
use std::collections::HashMap;
use vstd::prelude::*;

verus! {

broadcast use vstd::std_specs::hash::group_hash_axioms;

/// Per worker, the number of leading request blocks it already caches.
/// A worker without an entry caches none.
pub struct OverlapScores {
    pub scores: HashMap<i64, u32>,
}

/// The single-use capability to answer a request.
#[derive(Debug)]
pub struct ReplySlot {
    pending: bool,
}

impl ReplySlot {
    /// Whether the reply has not been used yet.
    pub closed spec fn is_pending(&self) -> bool {
        self.pending
    }

    /// A slot whose reply is outstanding.
    pub fn new() -> (slot: Self)
        ensures
            slot.is_pending(),
    {
        ReplySlot { pending: true }
    }

    /// Uses the reply up and tells whether this call was the first.
    pub fn take(&mut self) -> (first: bool)
        ensures
            first == old(self).is_pending(),
            !final(self).is_pending(),
    {
        let first = self.pending;
        self.pending = false;
        first
    }
}

/// One request as it travels through the scheduler.
pub struct SchedulingRequest {
    pub maybe_request_id: Option<String>,
    pub token_seq: Option<Vec<u64>>,
    pub isl_tokens: usize,
    pub overlaps: OverlapScores,
    pub decode_blocks: HashMap<i64, usize>,
    pub prefill_tokens: HashMap<i64, usize>,
    /// Tunables that replace the router's for this request only.
    pub router_config_override: Option<RouterConfigOverride>,
    /// Whether the decision is to be recorded in the ledger.
    pub update_states: bool,
    /// The reply owed to the caller, usable once.
    pub reply: ReplySlot,
}

impl SchedulingRequest {
    /// Whether the request still owes its caller a reply.
    pub open spec fn awaits_reply(&self) -> bool {
        self.reply.is_pending()
    }

    /// A fresh request with no predicted loads and its reply outstanding.
    pub fn new(
        maybe_request_id: Option<String>,
        isl_tokens: usize,
        token_seq: Option<Vec<u64>>,
        overlaps: OverlapScores,
        router_config_override: Option<RouterConfigOverride>,
        update_states: bool,
    ) -> (request: Self)
        ensures
            request.maybe_request_id == maybe_request_id,
            request.isl_tokens == isl_tokens,
            request.token_seq == token_seq,
            request.overlaps == overlaps,
            request.decode_blocks@ == Map::<i64, usize>::empty(),
            request.prefill_tokens@ == Map::<i64, usize>::empty(),
            request.router_config_override == router_config_override,
            request.update_states == update_states,
            request.awaits_reply(),
    {
        SchedulingRequest {
            maybe_request_id,
            token_seq,
            isl_tokens,
            overlaps,
            decode_blocks: HashMap::new(),
            prefill_tokens: HashMap::new(),
            router_config_override,
            update_states,
            reply: ReplySlot::new(),
        }
    }

    /// Uses up the request's single reply. The first call hands the
    /// response back for delivery; every later call yields nothing, which
    /// tells the caller that a reply was attempted twice.
    pub fn respond(&mut self, response: SchedulingResponse) -> (outgoing: Option<SchedulingResponse>)
        ensures
            outgoing == if old(self).awaits_reply() {
                Some(response)
            } else {
                None
            },
            !final(self).awaits_reply(),
            final(self).maybe_request_id == old(self).maybe_request_id,
            final(self).token_seq == old(self).token_seq,
            final(self).isl_tokens == old(self).isl_tokens,
            final(self).overlaps == old(self).overlaps,
            final(self).decode_blocks == old(self).decode_blocks,
            final(self).prefill_tokens == old(self).prefill_tokens,
            final(self).router_config_override == old(self).router_config_override,
            final(self).update_states == old(self).update_states,
    {
        if self.reply.take() {
            Some(response)
        } else {
            None
        }
    }
}

/// How long the scheduler waits, in milliseconds, when no worker can take
/// a request.
pub const BACKOFF_MILLIS: u64 = 5;

/// Number of requests the scheduler's queue holds before senders wait.
pub const REQUEST_QUEUE_CAPACITY: usize = 1024;

/// What the ledger is told once a request has been placed.
pub struct Reservation {
    pub request_id: String,
    pub token_seq: Option<Vec<u64>>,
    pub isl_tokens: usize,
    pub overlap: u32,
    pub worker_id: i64,
}

/// What the scheduler loop does after one selection.
pub enum SchedulerStep {
    /// Publish `event`, deliver `response` when the reply was still owed,
    /// and record `reservation` when there is one.
    Dispatch {
        event: KVHitRateEvent,
        response: Option<SchedulingResponse>,
        reservation: Option<Reservation>,
    },
    /// Wait this many milliseconds and take the next request.
    Backoff { millis: u64 },
    /// Leave the loop.
    Stop,
}

/// The cache-hit record of a selection.
pub open spec fn event_of(selection: WorkerSelectionResult) -> KVHitRateEvent {
    KVHitRateEvent {
        worker_id: selection.worker_id,
        isl_blocks: selection.required_blocks as usize,
        overlap_blocks: selection.overlap_blocks,
    }
}

/// The reply of a selection.
pub open spec fn response_of(selection: WorkerSelectionResult) -> SchedulingResponse {
    SchedulingResponse {
        best_worker_id: selection.worker_id,
        overlap_blocks: selection.overlap_blocks,
    }
}

/// Whether a placed request is recorded in the ledger: only when the
/// caller asked for it and the request carries an id.
pub open spec fn commits(request: SchedulingRequest) -> bool {
    request.update_states && request.maybe_request_id is Some
}

/// The published event and the reply of one decision name the same
/// worker: the selected one.
pub proof fn lemma_event_names_the_chosen_worker(selection: WorkerSelectionResult)
    ensures
        event_of(selection).worker_id == selection.worker_id,
        response_of(selection).best_worker_id == event_of(selection).worker_id,
        response_of(selection).overlap_blocks == event_of(selection).overlap_blocks,
{
}

/// Decides what follows a selection for `request`.
///
/// A selection is published and answered with the same worker, and is
/// recorded exactly when `commits` holds. A lack of endpoints or of
/// capacity makes the loop wait and go on; any other error ends it.
pub fn after_selection(
    request: SchedulingRequest,
    outcome: Result<WorkerSelectionResult, KvSchedulerError>,
) -> (step: SchedulerStep)
    ensures
        match outcome {
            Ok(selection) => {
                &&& step matches SchedulerStep::Dispatch { event, response, reservation }
                &&& event == event_of(selection)
                &&& response == if request.awaits_reply() {
                    Some(response_of(selection))
                } else {
                    None
                }
                &&& reservation is Some <==> commits(request)
                &&& reservation matches Some(r) ==> {
                    &&& Some(r.request_id) == request.maybe_request_id
                    &&& r.token_seq == request.token_seq
                    &&& r.isl_tokens == request.isl_tokens
                    &&& r.overlap == selection.overlap_blocks
                    &&& r.worker_id == selection.worker_id
                }
            },
            Err(KvSchedulerError::NoEndpoints) | Err(KvSchedulerError::AllWorkersBusy) => step
                matches SchedulerStep::Backoff { millis } && millis == BACKOFF_MILLIS,
            Err(KvSchedulerError::SubscriberShutdown) => step is Stop,
        },
{
    match outcome {
        Ok(selection) => {
            let mut request = request;
            let event = KVHitRateEvent {
                worker_id: selection.worker_id,
                isl_blocks: selection.required_blocks as usize,
                overlap_blocks: selection.overlap_blocks,
            };
            let response = request.respond(
                SchedulingResponse {
                    best_worker_id: selection.worker_id,
                    overlap_blocks: selection.overlap_blocks,
                },
            );
            let reservation = if request.update_states {
                match request.maybe_request_id {
                    Some(request_id) => Some(
                        Reservation {
                            request_id,
                            token_seq: request.token_seq,
                            isl_tokens: request.isl_tokens,
                            overlap: selection.overlap_blocks,
                            worker_id: selection.worker_id,
                        },
                    ),
                    None => None,
                }
            } else {
                None
            };
            SchedulerStep::Dispatch { event, response, reservation }
        },
        Err(KvSchedulerError::NoEndpoints) => SchedulerStep::Backoff { millis: BACKOFF_MILLIS },
        Err(KvSchedulerError::AllWorkersBusy) => SchedulerStep::Backoff { millis: BACKOFF_MILLIS },
        Err(KvSchedulerError::SubscriberShutdown) => SchedulerStep::Stop,
    }
}

/// Whether `table` lists a worker with this id.
pub open spec fn lists_worker(table: Seq<Worker>, worker_id: i64) -> bool {
    exists|j: int| 0 <= j < table.len() && (#[trigger] table[j]).worker_id == worker_id
}

/// The announced configuration of a worker, if it announced one.
pub open spec fn config_of(configs: Map<i64, WorkerRuntimeConfig>, worker_id: i64) -> Option<
    WorkerRuntimeConfig,
> {
    if configs.contains_key(worker_id) {
        Some(configs[worker_id])
    } else {
        None
    }
}

/// The live workers with their configurations: one entry per distinct
/// instance, in order of first appearance.
pub open spec fn workers_of(instances: Seq<i64>, configs: Map<i64, WorkerRuntimeConfig>) -> Seq<
    Worker,
>
    decreases instances.len(),
{
    if instances.len() == 0 {
        Seq::empty()
    } else {
        let rest = workers_of(instances.drop_last(), configs);
        let id = instances.last();
        if lists_worker(rest, id) {
            rest
        } else {
            rest.push(Worker { worker_id: id, config: config_of(configs, id) })
        }
    }
}

/// The worker table lists every instance exactly once, each with the
/// configuration it announced.
pub proof fn lemma_workers_of(instances: Seq<i64>, configs: Map<i64, WorkerRuntimeConfig>)
    ensures
        workers_of(instances, configs).len() <= instances.len(),
        forall|i: int|
            0 <= i < instances.len() ==> lists_worker(
                workers_of(instances, configs),
                #[trigger] instances[i],
            ),
        forall|j: int|
            0 <= j < workers_of(instances, configs).len() ==> {
                let w = #[trigger] workers_of(instances, configs)[j];
                instances.contains(w.worker_id) && w.config == config_of(configs, w.worker_id)
            },
        forall|j: int, k: int|
            0 <= j < k < workers_of(instances, configs).len() ==> (#[trigger] workers_of(
                instances,
                configs,
            )[j]).worker_id != (#[trigger] workers_of(instances, configs)[k]).worker_id,
    decreases instances.len(),
{
    if instances.len() > 0 {
        let front = instances.drop_last();
        let id = instances.last();
        lemma_workers_of(front, configs);
        let rest = workers_of(front, configs);
        let table = workers_of(instances, configs);
        assert forall|i: int| 0 <= i < instances.len() implies lists_worker(
            table,
            #[trigger] instances[i],
        ) by {
            if i < front.len() {
                assert(front[i] == instances[i]);
                assert(lists_worker(rest, front[i]));
                let j = choose|j: int|
                    0 <= j < rest.len() && (#[trigger] rest[j]).worker_id == front[i];
                assert(table[j] == rest[j]);
            } else if !lists_worker(rest, id) {
                assert(table[rest.len() as int].worker_id == id);
            } else {
                let j = choose|j: int| 0 <= j < rest.len() && (#[trigger] rest[j]).worker_id == id;
                assert(table[j].worker_id == id);
            }
        }
        assert forall|j: int| 0 <= j < table.len() implies ({
            let w = #[trigger] table[j];
            instances.contains(w.worker_id) && w.config == config_of(configs, w.worker_id)
        }) by {
            if j < rest.len() {
                assert(table[j] == rest[j]);
                let i = choose|i: int| 0 <= i < front.len() && front[i] == rest[j].worker_id;
                assert(instances[i] == rest[j].worker_id);
            } else {
                assert(instances[instances.len() - 1] == id);
            }
        }
        assert forall|j: int, k: int| 0 <= j < k < table.len() implies (#[trigger] table[j]).worker_id
            != (#[trigger] table[k]).worker_id by {
            if k < rest.len() {
                assert(table[j] == rest[j] && table[k] == rest[k]);
            } else {
                assert(table[j] == rest[j]);
            }
        }
    }
}

fn table_lists(table: &Vec<Worker>, worker_id: i64) -> (listed: bool)
    ensures
        listed == lists_worker(table@, worker_id),
{
    let mut j: usize = 0;
    while j < table.len()
        invariant
            j <= table.len(),
            forall|k: int| 0 <= k < j ==> (#[trigger] table@[k]).worker_id != worker_id,
        decreases table.len() - j,
    {
        if table[j].worker_id == worker_id {
            return true;
        }
        j += 1;
    }
    false
}

/// Builds the table of live workers from the latest instances and the
/// latest announced configurations.
pub fn worker_table(instances: &Vec<i64>, runtime_configs: &HashMap<i64, WorkerRuntimeConfig>)
    -> (table: Vec<Worker>)
    ensures
        table@ == workers_of(instances@, runtime_configs@),
{
    let mut table: Vec<Worker> = Vec::new();
    let mut i: usize = 0;
    while i < instances.len()
        invariant
            i <= instances.len(),
            table@ == workers_of(instances@.take(i as int), runtime_configs@),
        decreases instances.len() - i,
    {
        assert(instances@.take(i + 1).drop_last() =~= instances@.take(i as int));
        assert(instances@.take(i + 1).last() == instances@[i as int]);
        let id = instances[i];
        if !table_lists(&table, id) {
            let config = match runtime_configs.get(&id) {
                Some(c) => Some(*c),
                None => None,
            };
            table.push(Worker { worker_id: id, config });
        }
        i += 1;
    }
    assert(instances@.take(i as int) =~= instances@);
    table
}

/// The worker ids of a table, in table order.
pub open spec fn ids_of(table: Seq<Worker>) -> Seq<i64> {
    Seq::new(table.len(), |i: int| table[i].worker_id)
}

/// The worker ids of a table, in table order.
pub fn worker_ids(table: &Vec<Worker>) -> (ids: Vec<i64>)
    ensures
        ids@ == ids_of(table@),
{
    let mut ids: Vec<i64> = Vec::new();
    let mut i: usize = 0;
    while i < table.len()
        invariant
            i <= table.len(),
            ids.len() == i,
            forall|k: int| 0 <= k < i ==> ids[k] == (#[trigger] table[k]).worker_id,
        decreases table.len() - i,
    {
        ids.push(table[i].worker_id);
        i += 1;
    }
    assert(ids@ =~= ids_of(table@));
    ids
}

/// The load worker `worker_id` would carry: its predicted prefill tokens,
/// or the request's length when none are predicted, and its predicted
/// decode blocks, or none.
pub open spec fn load_of(
    decode_blocks: Map<i64, usize>,
    prefill_tokens: Map<i64, usize>,
    isl_tokens: usize,
    worker_id: i64,
) -> PotentialLoad {
    PotentialLoad {
        worker_id,
        potential_prefill_tokens: if prefill_tokens.contains_key(worker_id) {
            prefill_tokens[worker_id]
        } else {
            isl_tokens
        },
        potential_decode_blocks: if decode_blocks.contains_key(worker_id) {
            decode_blocks[worker_id]
        } else {
            0
        },
    }
}

/// The potential load of each listed worker, in the order listed.
pub fn get_potential_loads(
    worker_ids: &Vec<i64>,
    decode_blocks: &HashMap<i64, usize>,
    prefill_tokens: &HashMap<i64, usize>,
    isl_tokens: usize,
) -> (loads: Vec<PotentialLoad>)
    ensures
        loads.len() == worker_ids.len(),
        forall|i: int|
            0 <= i < worker_ids.len() ==> #[trigger] loads[i] == load_of(
                decode_blocks@,
                prefill_tokens@,
                isl_tokens,
                worker_ids[i],
            ),
{
    let mut loads: Vec<PotentialLoad> = Vec::new();
    let mut i: usize = 0;
    while i < worker_ids.len()
        invariant
            i <= worker_ids.len(),
            loads.len() == i,
            forall|k: int|
                0 <= k < i ==> #[trigger] loads[k] == load_of(
                    decode_blocks@,
                    prefill_tokens@,
                    isl_tokens,
                    worker_ids[k],
                ),
        decreases worker_ids.len() - i,
    {
        let worker_id = worker_ids[i];
        let prefill = match prefill_tokens.get(&worker_id) {
            Some(p) => *p,
            None => isl_tokens,
        };
        let decode = match decode_blocks.get(&worker_id) {
            Some(d) => *d,
            None => 0,
        };
        loads.push(
            PotentialLoad {
                worker_id,
                potential_prefill_tokens: prefill,
                potential_decode_blocks: decode,
            },
        );
        i += 1;
    }
    loads
}

/// What the scheduler did with one request.
pub enum Scheduled {
    /// A worker was chosen: publish `event` and deliver `response`, when
    /// the reply was still owed. `recorded` tells what the ledger said
    /// to the reservation, when one was made.
    Dispatch {
        event: KVHitRateEvent,
        response: Option<SchedulingResponse>,
        recorded: Option<Result<(), LedgerError>>,
    },
    /// The worker has to be drawn with softmax weights over `candidates`;
    /// `request` carries the predicted loads and goes on to `commit`.
    Draw { request: SchedulingRequest, candidates: Vec<Candidate> },
    /// No worker can take the request: wait this long and go on. The
    /// request comes back unanswered; whether it is tried again, answered
    /// with an error or let go is the caller's choice.
    Backoff { millis: u64, request: SchedulingRequest },
}

/// The scheduling core: the ledger, the live workers and the selector.
/// Decisions are made one at a time, each on the ledger as the decision
/// before left it.
pub struct KvScheduler {
    slots: ActiveSequences,
    workers: Vec<Worker>,
    selector: DefaultWorkerSelector,
    block_size: u32,
}

impl KvScheduler {
    /// The ledger of in-flight requests.
    pub closed spec fn ledger(&self) -> ActiveSequences {
        self.slots
    }

    /// The live workers with their configurations.
    pub closed spec fn table(&self) -> Seq<Worker> {
        self.workers@
    }

    /// The selector in use.
    pub closed spec fn selector(&self) -> DefaultWorkerSelector {
        self.selector
    }

    /// Tokens per block.
    pub closed spec fn block_size(&self) -> u32 {
        self.block_size
    }

    /// The ledger is well formed and knows exactly the live workers.
    pub open spec fn wf(&self) -> bool {
        &&& self.ledger().wf()
        &&& self.block_size() > 0
        &&& self.ledger().block_size() == self.block_size()
        &&& self.ledger().workers() == ids_of(self.table())
    }

    /// Whether `prepared` is `request` with the load of each live worker
    /// predicted from the ledger.
    pub open spec fn prepares(&self, request: SchedulingRequest, prepared: SchedulingRequest)
        -> bool {
        let entries = self.ledger().entries();
        let workers = self.ledger().workers();
        &&& prepared.maybe_request_id == request.maybe_request_id
        &&& prepared.token_seq == request.token_seq
        &&& prepared.isl_tokens == request.isl_tokens
        &&& prepared.overlaps == request.overlaps
        &&& prepared.router_config_override == request.router_config_override
        &&& prepared.update_states == request.update_states
        &&& prepared.reply == request.reply
        &&& forall|w: i64| prepared.decode_blocks@.contains_key(w) <==> workers.contains(w)
        &&& forall|w: i64| prepared.prefill_tokens@.contains_key(w) <==> workers.contains(w)
        &&& forall|w: i64| #[trigger]
            workers.contains(w) ==> prepared.decode_blocks@[w] == potential_blocks_of(
                entries,
                w,
                blocks_of(request.token_seq),
            ) && prepared.prefill_tokens@[w] == potential_prefill_of(
                entries,
                self.ledger().block_size(),
                w,
                request.isl_tokens,
                overlap_on(request.overlaps, w),
            )
    }

    /// Whether going from `self` to `after` with `step` is what placing
    /// `request` on the selected worker amounts to: the event and the
    /// reply name that worker, and the ledger gains the reservation
    /// exactly when the request commits, its id is new and the worker is
    /// known.
    pub open spec fn places(
        &self,
        request: SchedulingRequest,
        selection: WorkerSelectionResult,
        after: KvScheduler,
        step: Scheduled,
    ) -> bool {
        let before = self.ledger().entries();
        &&& step matches Scheduled::Dispatch { event, response, recorded }
        &&& event == event_of(selection)
        &&& response == if request.awaits_reply() {
            Some(response_of(selection))
        } else {
            None
        }
        &&& recorded is Some <==> commits(request)
        &&& match recorded {
            None => after.ledger().entries() == before,
            Some(Err(e)) => {
                &&& after.ledger().entries() == before
                &&& e == if has_request(before, request.maybe_request_id->0@) {
                    LedgerError::DuplicateRequest
                } else {
                    LedgerError::UnknownWorker
                }
                &&& has_request(before, request.maybe_request_id->0@)
                    || !self.ledger().workers().contains(selection.worker_id)
            },
            Some(Ok(())) => {
                &&& !has_request(before, request.maybe_request_id->0@)
                &&& self.ledger().workers().contains(selection.worker_id)
                &&& appended(
                    before,
                    after.ledger().entries(),
                    request.maybe_request_id->0,
                    selection.worker_id,
                    blocks_of(request.token_seq),
                    new_tokens_of(
                        request.isl_tokens,
                        selection.overlap_blocks,
                        self.ledger().block_size(),
                    ),
                )
            },
        }
    }

    /// Whether `after` differs from `self` at most in the ledger's
    /// reservations.
    pub open spec fn same_fleet(&self, after: KvScheduler) -> bool {
        &&& after.table() == self.table()
        &&& after.selector() == self.selector()
        &&& after.block_size() == self.block_size()
        &&& after.ledger().workers() == self.ledger().workers()
        &&& after.ledger().block_size() == self.ledger().block_size()
    }

    /// A scheduler for the given instances, with an empty ledger.
    pub fn start(
        block_size: u32,
        instances: &Vec<i64>,
        runtime_configs: &HashMap<i64, WorkerRuntimeConfig>,
        selector: Option<DefaultWorkerSelector>,
    ) -> (scheduler: Self)
        requires
            block_size > 0,
        ensures
            scheduler.wf(),
            scheduler.block_size() == block_size,
            scheduler.table() == workers_of(instances@, runtime_configs@),
            scheduler.ledger().entries().len() == 0,
            selector matches Some(given) ==> scheduler.selector() == given,
            selector is None ==> scheduler.selector().gate() is None
                && scheduler.selector().kv_router_config.overlap_score_weight_milli == 1000
                && scheduler.selector().kv_router_config.router_temperature_milli == 0,
    {
        let selector = match selector {
            Some(given) => given,
            None => DefaultWorkerSelector::new(None, false, 0),
        };
        let workers = worker_table(instances, runtime_configs);
        let slots = ActiveSequences::new(block_size as usize, worker_ids(&workers));
        KvScheduler { slots, workers, selector, block_size }
    }

    /// Takes over the latest instances and configurations. Reservations
    /// on workers that left are dropped.
    pub fn update_workers(
        &mut self,
        instances: &Vec<i64>,
        runtime_configs: &HashMap<i64, WorkerRuntimeConfig>,
    )
        requires
            old(self).wf(),
        ensures
            final(self).wf(),
            final(self).block_size() == old(self).block_size(),
            final(self).selector() == old(self).selector(),
            final(self).table() == workers_of(instances@, runtime_configs@),
            final(self).ledger().entries() == kept_of(
                old(self).ledger().entries(),
                ids_of(workers_of(instances@, runtime_configs@)),
            ),
    {
        let workers = worker_table(instances, runtime_configs);
        self.slots.update_workers(worker_ids(&workers));
        self.workers = workers;
    }

    /// Fills in, for each live worker, the load it would carry with the
    /// request.
    pub fn prepare(&self, request: SchedulingRequest) -> (prepared: SchedulingRequest)
        ensures
            self.prepares(request, prepared),
    {
        let (decode_blocks, prefill_tokens) = self.slots.potential_blocks_and_tokens(
            &request.token_seq,
            request.isl_tokens,
            &request.overlaps,
        );
        SchedulingRequest {
            maybe_request_id: request.maybe_request_id,
            token_seq: request.token_seq,
            isl_tokens: request.isl_tokens,
            overlaps: request.overlaps,
            decode_blocks,
            prefill_tokens,
            router_config_override: request.router_config_override,
            update_states: request.update_states,
            reply: request.reply,
        }
    }

    /// Selects a worker for a prepared request among the live workers.
    pub fn select(&self, request: &SchedulingRequest) -> (selection: Result<
        Selection,
        KvSchedulerError,
    >)
        requires
            self.wf(),
            request.isl_tokens > 0,
        ensures
            self.selector().selects(self.table(), *request, self.block_size(), selection),
    {
        self.selector.select_worker(&self.workers, request, self.block_size)
    }

    /// Places `request` on the selected worker: builds the event and the
    /// reply and, when the request commits, records the reservation. A
    /// reservation that the ledger refuses does not undo the reply.
    pub fn commit(&mut self, request: SchedulingRequest, selection: WorkerSelectionResult) -> (step:
        Scheduled)
        requires
            old(self).wf(),
        ensures
            final(self).wf(),
            old(self).same_fleet(*final(self)),
            old(self).places(request, selection, *final(self), step),
    {
        match after_selection(request, Ok(selection)) {
            SchedulerStep::Dispatch { event, response, reservation } => {
                let recorded = match reservation {
                    Some(r) => Some(
                        self.slots.add_request(
                            r.request_id,
                            r.token_seq,
                            r.isl_tokens,
                            r.overlap,
                            r.worker_id,
                        ),
                    ),
                    None => None,
                };
                Scheduled::Dispatch { event, response, recorded }
            },
            _ => vstd::pervasive::unreached(),
        }
    }

    /// Handles one request: predicts the loads, selects a worker and
    /// places the request on it.
    ///
    /// Without candidates the request is passed over and the loop is to
    /// wait. When the choice needs softmax weights, the prepared request
    /// and the candidates are handed back for the draw.
    pub fn schedule(&mut self, request: SchedulingRequest) -> (step: Scheduled)
        requires
            old(self).wf(),
            request.isl_tokens > 0,
        ensures
            final(self).wf(),
            old(self).same_fleet(*final(self)),
            match step {
                Scheduled::Backoff { millis, request: prepared } => {
                    &&& millis == BACKOFF_MILLIS
                    &&& final(self).ledger().entries() == old(self).ledger().entries()
                    &&& old(self).prepares(request, prepared)
                    &&& old(self).selector().selects(
                        old(self).table(),
                        prepared,
                        old(self).block_size(),
                        Err(KvSchedulerError::NoEndpoints),
                    )
                },
                Scheduled::Draw { request: prepared, candidates } => {
                    &&& final(self).ledger().entries() == old(self).ledger().entries()
                    &&& old(self).prepares(request, prepared)
                    &&& old(self).selector().selects(
                        old(self).table(),
                        prepared,
                        old(self).block_size(),
                        Ok(Selection::Weighted(candidates)),
                    )
                },
                Scheduled::Dispatch { event, .. } => exists|
                    prepared: SchedulingRequest,
                    chosen: WorkerSelectionResult,
                | #[trigger]
                    old(self).places(prepared, chosen, *final(self), step) && old(self).prepares(
                        request,
                        prepared,
                    ) && old(self).selector().selects(
                        old(self).table(),
                        prepared,
                        old(self).block_size(),
                        Ok(Selection::Chosen(chosen)),
                    ) && chosen.worker_id == event.worker_id,
            },
            step matches Scheduled::Dispatch { event, recorded, .. } ==> old(self).ledger().workers().contains(event.worker_id) && recorded != Some(
                Err::<(), LedgerError>(LedgerError::UnknownWorker),
            ),
    {
        let prepared = self.prepare(request);
        match self.select(&prepared) {
            Err(_) => Scheduled::Backoff { millis: BACKOFF_MILLIS, request: prepared },
            Ok(Selection::Weighted(candidates)) => Scheduled::Draw { request: prepared, candidates },
            Ok(Selection::Chosen(chosen)) => {
                proof {
                    crate::selector::lemma_chosen_is_a_worker(
                        self.selector,
                        self.workers@,
                        prepared,
                        self.block_size,
                        chosen,
                    );
                    let i = choose|i: int|
                        0 <= i < self.workers@.len() && (#[trigger] self.workers@[i]).worker_id
                            == chosen.worker_id && crate::selector::admits(
                            self.selector.gate(),
                            self.workers@[i].config,
                            prepared.isl_tokens,
                        );
                    assert(ids_of(self.workers@)[i] == chosen.worker_id);
                }
                self.commit(prepared, chosen)
            },
        }
    }

    /// Records a reservation made elsewhere. What the ledger says to it
    /// is handed back; a refusal changes nothing.
    pub fn add_request(
        &mut self,
        request_id: String,
        token_sequence: Option<Vec<u64>>,
        isl: usize,
        overlap: u32,
        worker_id: i64,
    ) -> (added: Result<(), LedgerError>)
        requires
            old(self).wf(),
        ensures
            final(self).wf(),
            old(self).same_fleet(*final(self)),
            match added {
                Ok(()) => {
                    &&& !has_request(old(self).ledger().entries(), request_id@)
                    &&& old(self).ledger().workers().contains(worker_id)
                    &&& appended(
                        old(self).ledger().entries(),
                        final(self).ledger().entries(),
                        request_id,
                        worker_id,
                        blocks_of(token_sequence),
                        new_tokens_of(isl, overlap, old(self).ledger().block_size()),
                    )
                },
                Err(e) => {
                    &&& final(self).ledger().entries() == old(self).ledger().entries()
                    &&& e == if has_request(old(self).ledger().entries(), request_id@) {
                        LedgerError::DuplicateRequest
                    } else {
                        LedgerError::UnknownWorker
                    }
                    &&& has_request(old(self).ledger().entries(), request_id@) || !old(self).ledger().workers().contains(worker_id)
                },
            },
    {
        self.slots.add_request(request_id, token_sequence, isl, overlap, worker_id)
    }

    /// Moves a request from prefill to decode.
    pub fn mark_prefill_completed(&mut self, request_id: &String) -> (marked: Result<
        (),
        LedgerError,
    >)
        requires
            old(self).wf(),
        ensures
            final(self).wf(),
            old(self).same_fleet(*final(self)),
            marks(
                old(self).ledger().entries(),
                final(self).ledger().entries(),
                request_id@,
                marked,
            ),
    {
        self.slots.mark_prefill_completed(request_id)
    }

    /// Removes a request from the ledger; an id that is not held is
    /// passed over.
    pub fn free(&mut self, request_id: &String)
        requires
            old(self).wf(),
        ensures
            final(self).wf(),
            old(self).same_fleet(*final(self)),
            frees(old(self).ledger().entries(), final(self).ledger().entries(), request_id@),
    {
        self.slots.free(request_id);
    }

    /// The load each live worker would carry with a request of this
    /// shape, in the order of the live workers.
    pub fn get_potential_loads(
        &self,
        token_seq: &Option<Vec<u64>>,
        isl_tokens: usize,
        overlaps: &OverlapScores,
    ) -> (loads: Vec<PotentialLoad>)
        ensures
            loads.len() == self.ledger().workers().len(),
            forall|i: int|
                0 <= i < loads.len() ==> {
                    let w = self.ledger().workers()[i];
                    &&& (#[trigger] loads[i]).worker_id == w
                    &&& loads[i].potential_decode_blocks == potential_blocks_of(
                        self.ledger().entries(),
                        w,
                        blocks_of(*token_seq),
                    )
                    &&& loads[i].potential_prefill_tokens == potential_prefill_of(
                        self.ledger().entries(),
                        self.ledger().block_size(),
                        w,
                        isl_tokens,
                        overlap_on(*overlaps, w),
                    )
                },
    {
        let (decode_blocks, prefill_tokens) = self.slots.potential_blocks_and_tokens(
            token_seq,
            isl_tokens,
            overlaps,
        );
        let ids = self.slots.worker_ids();
        let loads = get_potential_loads(&ids, &decode_blocks, &prefill_tokens, isl_tokens);
        assert forall|i: int| 0 <= i < loads.len() implies ({
            let w = self.ledger().workers()[i];
            &&& (#[trigger] loads[i]).worker_id == w
            &&& loads[i].potential_decode_blocks == potential_blocks_of(
                self.ledger().entries(),
                w,
                blocks_of(*token_seq),
            )
            &&& loads[i].potential_prefill_tokens == potential_prefill_of(
                self.ledger().entries(),
                self.ledger().block_size(),
                w,
                isl_tokens,
                overlap_on(*overlaps, w),
            )
        }) by {
            let w = ids@[i];
            assert(self.ledger().workers().contains(w));
        }
        loads
    }
}

} // verus!
