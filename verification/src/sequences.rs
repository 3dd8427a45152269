//! The ledger of in-flight work: which request runs on which worker, in
//! which phase, and what each worker would carry with one request more.

use crate::scheduler::OverlapScores;
use std::collections::{HashMap, HashSet};
use vstd::prelude::*;

verus! {

broadcast use vstd::std_specs::hash::group_hash_axioms;

/// Phase of a request that the ledger holds. A finished request is
/// removed and so has no phase.
#[derive(Debug, Clone, Copy, PartialEq, Eq, Structural)]
pub enum Phase {
    Prefill,
    Decode,
}

/// Misuse of the ledger.
#[derive(Debug, Clone, Copy, PartialEq, Eq, Structural)]
pub enum LedgerError {
    /// The request id is already in the ledger.
    DuplicateRequest,
    /// The request id is not in the ledger.
    UnknownRequest,
    /// The request is not in the phase that the operation needs.
    IllegalTransition,
    /// The worker is not among the ledger's workers.
    UnknownWorker,
}

/// One reservation.
#[derive(Debug)]
pub struct ActiveSequence {
    pub request_id: String,
    pub worker_id: i64,
    /// Hashes of the request's blocks; empty when none were given.
    pub blocks: Vec<u64>,
    /// Tokens of the request that the worker has to prefill.
    pub new_tokens: usize,
    pub phase: Phase,
}

/// Tokens left to prefill when `overlap` leading blocks are cached:
/// the input length less the cached tokens, and never less than zero.
pub open spec fn new_tokens_of(isl_tokens: usize, overlap: u32, block_size: usize) -> nat {
    if overlap * block_size <= isl_tokens {
        (isl_tokens - overlap * block_size) as nat
    } else {
        0
    }
}

/// Whether entry `i` carries the request id `id`.
pub open spec fn is_at(entries: Seq<ActiveSequence>, id: Seq<char>, i: int) -> bool {
    0 <= i < entries.len() && entries[i].request_id@ == id
}

/// Whether some entry carries the request id `id`.
pub open spec fn has_request(entries: Seq<ActiveSequence>, id: Seq<char>) -> bool {
    exists|i: int| is_at(entries, id, i)
}

/// No request id occurs twice.
pub open spec fn unique_ids(entries: Seq<ActiveSequence>) -> bool {
    forall|i: int, j: int|
        0 <= i < j < entries.len() ==> (#[trigger] entries[i]).request_id@ != (
        #[trigger] entries[j]).request_id@
}

/// Every entry runs on one of the workers.
pub open spec fn placed_on(entries: Seq<ActiveSequence>, workers: Seq<i64>) -> bool {
    forall|i: int| 0 <= i < entries.len() ==> workers.contains((#[trigger] entries[i]).worker_id)
}

/// The entries that run on one of `workers`, in their order.
pub open spec fn kept_of(entries: Seq<ActiveSequence>, workers: Seq<i64>) -> Seq<ActiveSequence>
    decreases entries.len(),
{
    if entries.len() == 0 {
        Seq::empty()
    } else {
        let rest = kept_of(entries.drop_last(), workers);
        if workers.contains(entries.last().worker_id) {
            rest.push(entries.last())
        } else {
            rest
        }
    }
}

/// Tokens that worker `w` still has to prefill.
pub open spec fn prefill_tokens_on(entries: Seq<ActiveSequence>, w: i64) -> nat
    decreases entries.len(),
{
    if entries.len() == 0 {
        0
    } else {
        let rest = prefill_tokens_on(entries.drop_last(), w);
        let last = entries.last();
        if last.worker_id == w && last.phase == Phase::Prefill {
            rest + last.new_tokens as nat
        } else {
            rest
        }
    }
}

/// The blocks of `blocks` added to `held`.
pub open spec fn with_blocks(held: Set<u64>, blocks: Seq<u64>) -> Set<u64>
    decreases blocks.len(),
{
    if blocks.len() == 0 {
        held
    } else {
        with_blocks(held, blocks.drop_last()).insert(blocks.last())
    }
}

/// The distinct blocks that worker `w` holds for its requests.
pub open spec fn blocks_on(entries: Seq<ActiveSequence>, w: i64) -> Set<u64>
    decreases entries.len(),
{
    if entries.len() == 0 {
        Set::empty()
    } else {
        let rest = blocks_on(entries.drop_last(), w);
        if entries.last().worker_id == w {
            with_blocks(rest, entries.last().blocks@)
        } else {
            rest
        }
    }
}

/// The block hashes given with a request; none when it came without.
pub open spec fn blocks_of(token_seq: Option<Vec<u64>>) -> Seq<u64> {
    match token_seq {
        Some(blocks) => blocks@,
        None => Seq::empty(),
    }
}

/// Whether `after` is `before` with one reservation more at its end: a
/// request in prefill on `worker_id` with these blocks and tokens.
pub open spec fn appended(
    before: Seq<ActiveSequence>,
    after: Seq<ActiveSequence>,
    request_id: String,
    worker_id: i64,
    blocks: Seq<u64>,
    new_tokens: nat,
) -> bool {
    &&& after.len() == before.len() + 1
    &&& after.drop_last() == before
    &&& after.last().request_id == request_id
    &&& after.last().worker_id == worker_id
    &&& after.last().phase == Phase::Prefill
    &&& after.last().new_tokens == new_tokens
    &&& after.last().blocks@ == blocks
}

/// Whether going from `before` to `after` with `marked` is what
/// completing the prefill of request `id` amounts to. An id that is not
/// held gives `UnknownRequest`, a request past its prefill gives
/// `IllegalTransition`, and both leave the entries as they were. A request
/// in prefill moves to decode and nothing else changes.
pub open spec fn marks(
    before: Seq<ActiveSequence>,
    after: Seq<ActiveSequence>,
    id: Seq<char>,
    marked: Result<(), LedgerError>,
) -> bool {
    &&& after.len() == before.len()
    &&& !has_request(before, id) ==> marked == Err::<(), LedgerError>(LedgerError::UnknownRequest)
        && after == before
    &&& forall|i: int|
        is_at(before, id, i) ==> {
            let entry = before[i];
            if entry.phase == Phase::Prefill {
                &&& marked is Ok
                &&& after == before.update(i, after[i])
                &&& after[i].phase == Phase::Decode
                &&& after[i].request_id == entry.request_id
                &&& after[i].worker_id == entry.worker_id
                &&& after[i].blocks == entry.blocks
                &&& after[i].new_tokens == entry.new_tokens
            } else {
                &&& marked == Err::<(), LedgerError>(LedgerError::IllegalTransition)
                &&& after == before
            }
        }
}

/// Whether going from `before` to `after` is what freeing request `id`
/// amounts to: its entry is gone, the others stay in their order, and
/// nothing changes when the id was not held.
pub open spec fn frees(before: Seq<ActiveSequence>, after: Seq<ActiveSequence>, id: Seq<char>)
    -> bool {
    &&& !has_request(after, id)
    &&& !has_request(before, id) ==> after == before
    &&& forall|i: int| is_at(before, id, i) ==> after == before.remove(i)
}

/// Freeing twice is freeing once: a second call finds nothing to remove.
pub proof fn lemma_free_is_idempotent(
    before: Seq<ActiveSequence>,
    once: Seq<ActiveSequence>,
    twice: Seq<ActiveSequence>,
    id: Seq<char>,
)
    requires
        frees(before, once, id),
        frees(once, twice, id),
    ensures
        twice == once,
{
}

/// A request that was added is held on the worker it was added to, and
/// stays held there until it is freed: completing a prefill does not move
/// it.
pub proof fn lemma_one_worker_until_free(
    before: Seq<ActiveSequence>,
    added: Seq<ActiveSequence>,
    after: Seq<ActiveSequence>,
    request_id: String,
    worker_id: i64,
    blocks: Seq<u64>,
    new_tokens: nat,
    other: Seq<char>,
    marked: Result<(), LedgerError>,
)
    requires
        unique_ids(before),
        !has_request(before, request_id@),
        appended(before, added, request_id, worker_id, blocks, new_tokens),
        marks(added, after, other, marked),
    ensures
        is_at(added, request_id@, before.len() as int),
        is_at(after, request_id@, before.len() as int),
        after[before.len() as int].worker_id == worker_id,
        forall|i: int| is_at(after, request_id@, i) ==> i == before.len(),
{
    let at = before.len() as int;
    assert(added[at] == added.last());
    assert forall|i: int| 0 <= i < before.len() implies added[i] == before[i] by {
        assert(added.drop_last()[i] == added[i]);
    }
    assert forall|i: int| is_at(added, request_id@, i) implies i == at by {
        if i != at {
            assert(is_at(before, request_id@, i));
        }
    }
    if has_request(added, other) {
        let j = choose|j: int| is_at(added, other, j);
        assert(is_at(added, other, j));
        assert forall|i: int| 0 <= i < after.len() implies (#[trigger] after[i]).request_id@
            == added[i].request_id@ && after[i].worker_id == added[i].worker_id by {
            if added[j].phase == Phase::Prefill {
                if i != j {
                    assert(after[i] == added.update(j, after[j])[i]);
                }
            }
        }
    }
    assert forall|i: int| is_at(after, request_id@, i) implies i == at by {
        assert(after[i].request_id@ == added[i].request_id@);
        assert(is_at(added, request_id@, i));
    }
    assert(after[at].request_id@ == added[at].request_id@);
}

/// A count cut off at the largest machine number.
pub open spec fn saturated(n: nat) -> usize {
    if n > usize::MAX {
        usize::MAX
    } else {
        n as usize
    }
}

/// Prefill tokens worker `w` would have with one request more.
pub open spec fn potential_prefill_of(
    entries: Seq<ActiveSequence>,
    block_size: usize,
    w: i64,
    isl_tokens: usize,
    overlap: u32,
) -> usize {
    saturated(prefill_tokens_on(entries, w) + new_tokens_of(isl_tokens, overlap, block_size))
}

/// Distinct blocks worker `w` would hold with one request more.
pub open spec fn potential_blocks_of(entries: Seq<ActiveSequence>, w: i64, blocks: Seq<u64>)
    -> nat {
    with_blocks(blocks_on(entries, w), blocks).len()
}

/// Leading blocks that `overlaps` reports cached on worker `w`.
pub open spec fn overlap_on(overlaps: OverlapScores, w: i64) -> u32 {
    if overlaps.scores@.contains_key(w) {
        overlaps.scores@[w]
    } else {
        0
    }
}

/// Filtering by workers keeps only entries of the ledger, keeps request
/// ids unique, and leaves every kept entry on one of the workers.
pub proof fn lemma_kept_of(entries: Seq<ActiveSequence>, workers: Seq<i64>)
    requires
        unique_ids(entries),
    ensures
        forall|k: int|
            0 <= k < kept_of(entries, workers).len() ==> entries.contains(
                #[trigger] kept_of(entries, workers)[k],
            ),
        unique_ids(kept_of(entries, workers)),
        placed_on(kept_of(entries, workers), workers),
    decreases entries.len(),
{
    if entries.len() > 0 {
        let front = entries.drop_last();
        assert forall|i: int, j: int| 0 <= i < j < front.len() implies (#[trigger] front[i]).request_id@
            != (#[trigger] front[j]).request_id@ by {
            assert(front[i] == entries[i] && front[j] == entries[j]);
        }
        lemma_kept_of(front, workers);
        let rest = kept_of(front, workers);
        let kept = kept_of(entries, workers);
        assert forall|k: int| 0 <= k < kept.len() implies entries.contains(#[trigger] kept[k]) by {
            if k < rest.len() {
                assert(kept[k] == rest[k]);
                let i = choose|i: int| 0 <= i < front.len() && front[i] == rest[k];
                assert(entries[i] == rest[k]);
            } else {
                assert(entries[entries.len() - 1] == kept[k]);
            }
        }
        assert forall|i: int, j: int| 0 <= i < j < kept.len() implies (#[trigger] kept[i]).request_id@
            != (#[trigger] kept[j]).request_id@ by {
            if j < rest.len() {
                assert(kept[i] == rest[i] && kept[j] == rest[j]);
            } else {
                assert(kept[i] == rest[i]);
                let a = choose|a: int| 0 <= a < front.len() && front[a] == rest[i];
                assert(entries[a] == kept[i]);
                assert(entries[entries.len() - 1] == kept[j]);
            }
        }
        assert forall|k: int| 0 <= k < kept.len() implies workers.contains(
            (#[trigger] kept[k]).worker_id,
        ) by {
            if k < rest.len() {
                assert(kept[k] == rest[k]);
            }
        }
    }
}

/// A reservation survives a change of workers exactly when its worker is
/// still listed.
pub proof fn lemma_kept_iff(entries: Seq<ActiveSequence>, workers: Seq<i64>, entry: ActiveSequence)
    ensures
        kept_of(entries, workers).contains(entry) <==> entries.contains(entry) && workers.contains(
            entry.worker_id,
        ),
    decreases entries.len(),
{
    if entries.len() > 0 {
        let front = entries.drop_last();
        let rest = kept_of(front, workers);
        let kept = kept_of(entries, workers);
        lemma_kept_iff(front, workers, entry);
        if kept.contains(entry) {
            let k = choose|k: int| 0 <= k < kept.len() && kept[k] == entry;
            if k < rest.len() {
                assert(rest[k] == entry);
                let i = choose|i: int| 0 <= i < front.len() && front[i] == entry;
                assert(entries[i] == entry);
            } else {
                assert(entries[entries.len() - 1] == entry);
            }
        }
        if entries.contains(entry) && workers.contains(entry.worker_id) {
            let i = choose|i: int| 0 <= i < entries.len() && entries[i] == entry;
            if i < front.len() {
                assert(front[i] == entry);
                let k = choose|k: int| 0 <= k < rest.len() && rest[k] == entry;
                assert(kept[k] == entry);
            } else {
                assert(kept[rest.len() as int] == entry);
            }
        }
    }
}

/// The per-worker ledger of in-flight requests.
pub struct ActiveSequences {
    block_size: usize,
    workers: Vec<i64>,
    sequences: Vec<ActiveSequence>,
}

impl ActiveSequences {
    /// Tokens per block.
    pub closed spec fn block_size(&self) -> usize {
        self.block_size
    }

    /// The workers that can take requests.
    pub closed spec fn workers(&self) -> Seq<i64> {
        self.workers@
    }

    /// The reservations, oldest first.
    pub closed spec fn entries(&self) -> Seq<ActiveSequence> {
        self.sequences@
    }

    /// A request id is held at most once, and on one of the workers.
    pub open spec fn wf(&self) -> bool {
        unique_ids(self.entries()) && placed_on(self.entries(), self.workers())
    }

    /// An empty ledger for the given workers.
    pub fn new(block_size: usize, worker_ids: Vec<i64>) -> (ledger: Self)
        ensures
            ledger.wf(),
            ledger.block_size() == block_size,
            ledger.workers() == worker_ids@,
            ledger.entries().len() == 0,
    {
        ActiveSequences { block_size, workers: worker_ids, sequences: Vec::new() }
    }

    /// The workers that can take requests, as a list.
    pub fn worker_ids(&self) -> (ids: Vec<i64>)
        ensures
            ids@ == self.workers(),
    {
        let mut ids: Vec<i64> = Vec::new();
        let mut i: usize = 0;
        while i < self.workers.len()
            invariant
                i <= self.workers.len(),
                ids@ == self.workers@.take(i as int),
            decreases self.workers.len() - i,
        {
            ids.push(self.workers[i]);
            assert(ids@ =~= self.workers@.take(i + 1));
            i += 1;
        }
        assert(self.workers@.take(i as int) =~= self.workers@);
        ids
    }

    /// Number of reservations held.
    pub fn len(&self) -> (n: usize)
        ensures
            n == self.entries().len(),
    {
        self.sequences.len()
    }

    fn find(&self, request_id: &String) -> (at: Option<usize>)
        ensures
            match at {
                Some(i) => is_at(self.entries(), request_id@, i as int),
                None => !has_request(self.entries(), request_id@),
            },
    {
        let mut i: usize = 0;
        while i < self.sequences.len()
            invariant
                i <= self.sequences.len(),
                forall|k: int| 0 <= k < i ==> !is_at(self.entries(), request_id@, k),
            decreases self.sequences.len() - i,
        {
            if self.sequences[i].request_id == *request_id {
                return Some(i);
            }
            i += 1;
        }
        None
    }

    fn knows_worker(&self, worker_id: i64) -> (known: bool)
        ensures
            known == self.workers().contains(worker_id),
    {
        let mut i: usize = 0;
        while i < self.workers.len()
            invariant
                i <= self.workers.len(),
                forall|k: int| 0 <= k < i ==> self.workers@[k] != worker_id,
            decreases self.workers.len() - i,
        {
            if self.workers[i] == worker_id {
                return true;
            }
            i += 1;
        }
        false
    }

    /// The worker and phase of a request, if the ledger holds it.
    pub fn lookup(&self, request_id: &String) -> (found: Option<(i64, Phase)>)
        requires
            self.wf(),
        ensures
            found is Some <==> has_request(self.entries(), request_id@),
            forall|i: int|
                is_at(self.entries(), request_id@, i) ==> found == Some(
                    (self.entries()[i].worker_id, self.entries()[i].phase),
                ),
    {
        match self.find(request_id) {
            Some(i) => {
                assert forall|j: int| is_at(self.entries(), request_id@, j) implies j == i by {
                    if j != i {
                        if j < i {
                            assert(self.entries()[j].request_id@ != self.entries()[i as int].request_id@);
                        } else {
                            assert(self.entries()[i as int].request_id@ != self.entries()[j].request_id@);
                        }
                    }
                }
                Some((self.sequences[i].worker_id, self.sequences[i].phase))
            },
            None => None,
        }
    }

    /// Records a reservation in the prefill phase.
    ///
    /// Fails with `DuplicateRequest` when the id is already held, and
    /// with `UnknownWorker` when the id is new and the worker is not one
    /// of the ledger's. A failed call changes nothing.
    pub fn add_request(
        &mut self,
        request_id: String,
        token_seq: Option<Vec<u64>>,
        isl_tokens: usize,
        overlap: u32,
        worker_id: i64,
    ) -> (added: Result<(), LedgerError>)
        requires
            old(self).wf(),
        ensures
            final(self).wf(),
            final(self).block_size() == old(self).block_size(),
            final(self).workers() == old(self).workers(),
            match added {
                Ok(()) => {
                    &&& !has_request(old(self).entries(), request_id@)
                    &&& old(self).workers().contains(worker_id)
                    &&& appended(
                        old(self).entries(),
                        final(self).entries(),
                        request_id,
                        worker_id,
                        blocks_of(token_seq),
                        new_tokens_of(isl_tokens, overlap, old(self).block_size()),
                    )
                },
                Err(e) => {
                    &&& final(self).entries() == old(self).entries()
                    &&& e == if has_request(old(self).entries(), request_id@) {
                        LedgerError::DuplicateRequest
                    } else {
                        LedgerError::UnknownWorker
                    }
                    &&& has_request(old(self).entries(), request_id@) || !old(self).workers().contains(worker_id)
                },
            },
    {
        if self.find(&request_id).is_some() {
            return Err(LedgerError::DuplicateRequest);
        }
        if !self.knows_worker(worker_id) {
            return Err(LedgerError::UnknownWorker);
        }
        let new_tokens = uncached_tokens(isl_tokens, overlap, self.block_size);
        let blocks = match token_seq {
            Some(blocks) => blocks,
            None => Vec::new(),
        };
        let ghost before = self.sequences@;
        self.sequences.push(
            ActiveSequence { request_id, worker_id, blocks, new_tokens, phase: Phase::Prefill },
        );
        proof {
            let after = self.sequences@;
            assert(after.drop_last() =~= before);
            assert forall|i: int, j: int| 0 <= i < j < after.len() implies (#[trigger] after[i]).request_id@
                != (#[trigger] after[j]).request_id@ by {
                if j < before.len() {
                    assert(after[i] == before[i] && after[j] == before[j]);
                } else {
                    assert(after[i] == before[i]);
                    assert(!is_at(before, request_id@, i));
                }
            }
            assert forall|i: int| 0 <= i < after.len() implies self.workers@.contains(
                (#[trigger] after[i]).worker_id,
            ) by {
                if i < before.len() {
                    assert(after[i] == before[i]);
                }
            }
        }
        Ok(())
    }

    /// Moves a request from prefill to decode.
    ///
    /// Fails with `UnknownRequest` when the id is not held and with
    /// `IllegalTransition` when the request is not in prefill. A failed
    /// call changes nothing.
    pub fn mark_prefill_completed(&mut self, request_id: &String) -> (marked: Result<
        (),
        LedgerError,
    >)
        requires
            old(self).wf(),
        ensures
            final(self).wf(),
            final(self).block_size() == old(self).block_size(),
            final(self).workers() == old(self).workers(),
            marks(old(self).entries(), final(self).entries(), request_id@, marked),
    {
        let at = match self.find(request_id) {
            Some(i) => i,
            None => {
                return Err(LedgerError::UnknownRequest);
            },
        };
        let ghost before = self.sequences@;
        proof {
            assert forall|j: int| is_at(before, request_id@, j) implies j == at by {
                if j < at {
                    assert(before[j].request_id@ != before[at as int].request_id@);
                } else if j > at {
                    assert(before[at as int].request_id@ != before[j].request_id@);
                }
            }
        }
        match self.sequences[at].phase {
            Phase::Decode => Err(LedgerError::IllegalTransition),
            Phase::Prefill => {
                let entry = self.sequences.remove(at);
                self.sequences.insert(
                    at,
                    ActiveSequence {
                        request_id: entry.request_id,
                        worker_id: entry.worker_id,
                        blocks: entry.blocks,
                        new_tokens: entry.new_tokens,
                        phase: Phase::Decode,
                    },
                );
                proof {
                    let after = self.sequences@;
                    assert(after =~= before.update(at as int, after[at as int]));
                    assert forall|i: int, j: int| 0 <= i < j < after.len() implies (
                    #[trigger] after[i]).request_id@ != (#[trigger] after[j]).request_id@ by {
                        assert(after[i].request_id@ == before[i].request_id@);
                        assert(after[j].request_id@ == before[j].request_id@);
                    }
                    assert forall|i: int| 0 <= i < after.len() implies self.workers@.contains(
                        (#[trigger] after[i]).worker_id,
                    ) by {
                        assert(after[i].worker_id == before[i].worker_id);
                    }
                }
                Ok(())
            },
        }
    }

    /// Removes a request. Removing an id that is not held changes nothing.
    pub fn free(&mut self, request_id: &String)
        requires
            old(self).wf(),
        ensures
            final(self).wf(),
            final(self).block_size() == old(self).block_size(),
            final(self).workers() == old(self).workers(),
            frees(old(self).entries(), final(self).entries(), request_id@),
    {
        let at = match self.find(request_id) {
            Some(i) => i,
            None => {
                return ;
            },
        };
        let ghost before = self.sequences@;
        proof {
            assert forall|j: int| is_at(before, request_id@, j) implies j == at by {
                if j < at {
                    assert(before[j].request_id@ != before[at as int].request_id@);
                } else if j > at {
                    assert(before[at as int].request_id@ != before[j].request_id@);
                }
            }
        }
        let _ = self.sequences.remove(at);
        proof {
            let after = self.sequences@;
            assert forall|i: int| 0 <= i < after.len() implies (#[trigger] after[i]) == before[if i
                < at {
                i
            } else {
                i + 1
            }] by {}
            assert forall|i: int, j: int| 0 <= i < j < after.len() implies (#[trigger] after[i]).request_id@
                != (#[trigger] after[j]).request_id@ by {
                let a = if i < at { i } else { i + 1 };
                let b = if j < at { j } else { j + 1 };
                assert(after[i] == before[a] && after[j] == before[b]);
            }
            assert forall|i: int| 0 <= i < after.len() implies self.workers@.contains(
                (#[trigger] after[i]).worker_id,
            ) by {
                let a = if i < at { i } else { i + 1 };
                assert(after[i] == before[a]);
            }
            assert forall|i: int| !is_at(after, request_id@, i) by {
                if 0 <= i < after.len() {
                    let a = if i < at { i } else { i + 1 };
                    assert(after[i] == before[a]);
                    assert(!is_at(before, request_id@, a));
                }
            }
        }
    }

    /// Replaces the workers. Reservations on workers that are no longer
    /// listed are dropped; the others stay, in their order.
    pub fn update_workers(&mut self, worker_ids: Vec<i64>)
        requires
            old(self).wf(),
        ensures
            final(self).wf(),
            final(self).block_size() == old(self).block_size(),
            final(self).workers() == worker_ids@,
            final(self).entries() == kept_of(old(self).entries(), worker_ids@),
    {
        let ghost before = self.sequences@;
        let ghost done: int = 0;
        let mut i: usize = 0;
        self.workers = worker_ids;
        assert(before.take(0) =~= Seq::<ActiveSequence>::empty());
        assert(before.skip(0) =~= before);
        while i < self.sequences.len()
            invariant
                0 <= done <= before.len(),
                self.workers@ == worker_ids@,
                self.block_size == old(self).block_size,
                i == kept_of(before.take(done), worker_ids@).len(),
                self.sequences@ == kept_of(before.take(done), worker_ids@) + before.skip(done),
            decreases before.len() - done,
        {
            proof {
                assert(self.sequences@[i as int] == before.skip(done)[0]);
                assert(before.take(done + 1).drop_last() =~= before.take(done));
                assert(before.take(done + 1).last() == before[done]);
            }
            if self.knows_worker(self.sequences[i].worker_id) {
                proof {
                    assert(self.sequences@ =~= kept_of(before.take(done + 1), worker_ids@)
                        + before.skip(done + 1));
                    done = done + 1;
                }
                i += 1;
            } else {
                let _ = self.sequences.remove(i);
                proof {
                    assert(self.sequences@ =~= kept_of(before.take(done + 1), worker_ids@)
                        + before.skip(done + 1));
                    done = done + 1;
                }
            }
        }
        proof {
            assert(done == before.len());
            assert(before.take(done) =~= before);
            assert(self.sequences@ =~= kept_of(before, worker_ids@));
            lemma_kept_of(before, worker_ids@);
        }
    }

    fn prefill_tokens_of_worker(&self, worker_id: i64) -> (total: usize)
        ensures
            total == saturated(prefill_tokens_on(self.entries(), worker_id)),
    {
        let mut total: usize = 0;
        let mut i: usize = 0;
        while i < self.sequences.len()
            invariant
                i <= self.sequences.len(),
                total == saturated(prefill_tokens_on(self.sequences@.take(i as int), worker_id)),
            decreases self.sequences.len() - i,
        {
            assert(self.sequences@.take(i + 1).drop_last() =~= self.sequences@.take(i as int));
            assert(self.sequences@.take(i + 1).last() == self.sequences@[i as int]);
            let entry = &self.sequences[i];
            let in_prefill = match entry.phase {
                Phase::Prefill => true,
                Phase::Decode => false,
            };
            if entry.worker_id == worker_id && in_prefill {
                total = plus_saturating(total, entry.new_tokens);
            }
            i += 1;
        }
        assert(self.sequences@.take(i as int) =~= self.sequences@);
        total
    }

    fn blocks_of_worker(&self, worker_id: i64) -> (held: HashSet<u64>)
        ensures
            held@ == blocks_on(self.entries(), worker_id),
    {
        let mut held: HashSet<u64> = HashSet::new();
        let mut i: usize = 0;
        while i < self.sequences.len()
            invariant
                i <= self.sequences.len(),
                held@ == blocks_on(self.sequences@.take(i as int), worker_id),
            decreases self.sequences.len() - i,
        {
            assert(self.sequences@.take(i + 1).drop_last() =~= self.sequences@.take(i as int));
            assert(self.sequences@.take(i + 1).last() == self.sequences@[i as int]);
            if self.sequences[i].worker_id == worker_id {
                insert_blocks(&mut held, &self.sequences[i].blocks);
            }
            i += 1;
        }
        assert(self.sequences@.take(i as int) =~= self.sequences@);
        held
    }

    /// What one worker would carry with one request more: its distinct
    /// blocks with the request's added, and its prefill tokens with the
    /// request's uncached tokens added.
    pub fn potential_load(
        &self,
        worker_id: i64,
        token_seq: &Option<Vec<u64>>,
        isl_tokens: usize,
        overlap: u32,
    ) -> (load: (usize, usize))
        ensures
            load.0 == potential_blocks_of(
                self.entries(),
                worker_id,
                blocks_of(*token_seq),
            ),
            load.1 == potential_prefill_of(
                self.entries(),
                self.block_size(),
                worker_id,
                isl_tokens,
                overlap,
            ),
    {
        let mut held = self.blocks_of_worker(worker_id);
        match token_seq {
            Some(blocks) => {
                insert_blocks(&mut held, blocks);
            },
            None => {},
        }
        let new_tokens = uncached_tokens(isl_tokens, overlap, self.block_size);
        let active = self.prefill_tokens_of_worker(worker_id);
        (held.len(), plus_saturating(active, new_tokens))
    }

    /// For each worker, the decode blocks and the prefill tokens it would
    /// have if the request were placed on it.
    pub fn potential_blocks_and_tokens(
        &self,
        token_seq: &Option<Vec<u64>>,
        isl_tokens: usize,
        overlaps: &OverlapScores,
    ) -> (potential: (HashMap<i64, usize>, HashMap<i64, usize>))
        ensures
            forall|w: i64|
                potential.0@.contains_key(w) <==> self.workers().contains(w),
            forall|w: i64|
                potential.1@.contains_key(w) <==> self.workers().contains(w),
            forall|w: i64| #[trigger]
                self.workers().contains(w) ==> potential.0@[w] == potential_blocks_of(
                    self.entries(),
                    w,
                    blocks_of(*token_seq),
                ) && potential.1@[w] == potential_prefill_of(
                    self.entries(),
                    self.block_size(),
                    w,
                    isl_tokens,
                    overlap_on(*overlaps, w),
                ),
    {
        let mut decode_blocks: HashMap<i64, usize> = HashMap::new();
        let mut prefill_tokens: HashMap<i64, usize> = HashMap::new();
        let ghost blocks = blocks_of(*token_seq);
        let mut i: usize = 0;
        while i < self.workers.len()
            invariant
                i <= self.workers.len(),
                blocks == blocks_of(*token_seq),
                forall|w: i64|
                    decode_blocks@.contains_key(w) <==> self.workers@.take(i as int).contains(w),
                forall|w: i64|
                    prefill_tokens@.contains_key(w) <==> self.workers@.take(i as int).contains(w),
                forall|w: i64| #[trigger]
                    decode_blocks@.contains_key(w) ==> decode_blocks@[w] == potential_blocks_of(
                        self.entries(),
                        w,
                        blocks,
                    ) && prefill_tokens@[w] == potential_prefill_of(
                        self.entries(),
                        self.block_size(),
                        w,
                        isl_tokens,
                        overlap_on(*overlaps, w),
                    ),
            decreases self.workers.len() - i,
        {
            let worker_id = self.workers[i];
            let overlap = match overlaps.scores.get(&worker_id) {
                Some(o) => *o,
                None => 0,
            };
            let (decode, prefill) = self.potential_load(worker_id, token_seq, isl_tokens, overlap);
            decode_blocks.insert(worker_id, decode);
            prefill_tokens.insert(worker_id, prefill);
            proof {
                let before = self.workers@.take(i as int);
                let after = self.workers@.take(i + 1);
                assert(after.drop_last() =~= before);
                assert(after.last() == worker_id);
                assert forall|w: i64| after.contains(w) <==> (before.contains(w) || w
                    == worker_id) by {
                    if before.contains(w) {
                        let k = choose|k: int| 0 <= k < before.len() && before[k] == w;
                        assert(after[k] == w);
                    }
                    if w == worker_id {
                        assert(after[i as int] == w);
                    }
                    if after.contains(w) {
                        let k = choose|k: int| 0 <= k < after.len() && after[k] == w;
                        if k < i {
                            assert(before[k] == w);
                        }
                    }
                }
            }
            i += 1;
        }
        assert(self.workers@.take(i as int) =~= self.workers@);
        assert forall|w: i64| #[trigger] self.workers().contains(w) implies decode_blocks@[w]
            == potential_blocks_of(self.entries(), w, blocks) && prefill_tokens@[w]
            == potential_prefill_of(
            self.entries(),
            self.block_size(),
            w,
            isl_tokens,
            overlap_on(*overlaps, w),
        ) by {
            assert(decode_blocks@.contains_key(w));
        }
        (decode_blocks, prefill_tokens)
    }
}

/// Tokens of a request that are not yet cached on a worker.
pub fn uncached_tokens(isl_tokens: usize, overlap: u32, block_size: usize) -> (tokens: usize)
    ensures
        tokens == new_tokens_of(isl_tokens, overlap, block_size),
{
    assert(0 <= overlap * block_size <= 0xFFFF_FFFF * 0xFFFF_FFFF_FFFF_FFFF) by (nonlinear_arith)
        requires
            0 <= overlap <= 0xFFFF_FFFF,
            0 <= block_size <= 0xFFFF_FFFF_FFFF_FFFF,
    ;
    let cached: u128 = (overlap as u128) * (block_size as u128);
    if cached <= isl_tokens as u128 {
        (isl_tokens as u128 - cached) as usize
    } else {
        0
    }
}

fn plus_saturating(a: usize, b: usize) -> (sum: usize)
    ensures
        sum == saturated((a + b) as nat),
{
    if a > usize::MAX - b {
        usize::MAX
    } else {
        a + b
    }
}

fn insert_blocks(held: &mut HashSet<u64>, blocks: &Vec<u64>)
    ensures
        final(held)@ == with_blocks(old(held)@, blocks@),
{
    let ghost start = held@;
    let mut i: usize = 0;
    while i < blocks.len()
        invariant
            i <= blocks.len(),
            held@ == with_blocks(start, blocks@.take(i as int)),
        decreases blocks.len() - i,
    {
        assert(blocks@.take(i + 1).drop_last() =~= blocks@.take(i as int));
        assert(blocks@.take(i + 1).last() == blocks@[i as int]);
        held.insert(blocks[i]);
        i += 1;
    }
    assert(blocks@.take(i as int) =~= blocks@);
}

} // verus!
