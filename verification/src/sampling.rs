//! Temperature-controlled choice among costed candidates.
//!
//! A candidate's cost is its logit multiplied by a positive factor common
//! to all candidates of one decision. Sampling normalises by the spread of
//! the costs, so the factor does not change any probability. Lower cost is
//! better.

use rand::Rng;
use vstd::prelude::*;

verus! {

/// A worker and what it would cost to run the request there.
#[derive(Debug, Clone, Copy, PartialEq, Eq, Structural)]
pub struct Candidate {
    pub worker_id: i64,
    pub cost: i128,
}

/// What sampling yields without evaluating an exponential.
#[derive(Debug, Clone, Copy, PartialEq, Eq, Structural)]
pub enum Sample {
    /// The chosen worker.
    Key(i64),
    /// The candidates differ in cost and the temperature is positive: the
    /// worker must be drawn with softmax weights over the costs.
    Weighted,
}

/// Smallest cost among `logits`; zero for the empty sequence.
pub open spec fn min_cost(logits: Seq<Candidate>) -> int
    decreases logits.len(),
{
    if logits.len() == 0 {
        0
    } else if logits.len() == 1 {
        logits[0].cost as int
    } else {
        let rest = min_cost(logits.drop_last());
        if logits.last().cost < rest {
            logits.last().cost as int
        } else {
            rest
        }
    }
}

/// Largest cost among `logits`; zero for the empty sequence.
pub open spec fn max_cost(logits: Seq<Candidate>) -> int
    decreases logits.len(),
{
    if logits.len() == 0 {
        0
    } else if logits.len() == 1 {
        logits[0].cost as int
    } else {
        let rest = max_cost(logits.drop_last());
        if logits.last().cost > rest {
            logits.last().cost as int
        } else {
            rest
        }
    }
}

/// Workers of `logits` whose cost is exactly `cost`, in candidate order.
pub open spec fn keys_at_cost(logits: Seq<Candidate>, cost: int) -> Seq<i64>
    decreases logits.len(),
{
    if logits.len() == 0 {
        Seq::empty()
    } else {
        let rest = keys_at_cost(logits.drop_last(), cost);
        if logits.last().cost == cost {
            rest.push(logits.last().worker_id)
        } else {
            rest
        }
    }
}

/// Workers of `logits` in candidate order.
pub open spec fn keys_of(logits: Seq<Candidate>) -> Seq<i64> {
    Seq::new(logits.len(), |i: int| logits[i].worker_id)
}

/// Whether candidate `i` is at least as cheap as every candidate.
pub open spec fn is_cheapest(logits: Seq<Candidate>, i: int) -> bool {
    &&& 0 <= i < logits.len()
    &&& forall|j: int| 0 <= j < logits.len() ==> logits[i].cost <= #[trigger] logits[j].cost
}

/// Whether `key` names a candidate that is at least as cheap as every
/// candidate.
pub open spec fn is_cheapest_key(logits: Seq<Candidate>, key: i64) -> bool {
    exists|i: int| #[trigger] is_cheapest(logits, i) && logits[i].worker_id == key
}

/// Whether `key` names a candidate whose cost is `cost`.
pub open spec fn has_key_at_cost(logits: Seq<Candidate>, key: i64, cost: int) -> bool {
    exists|i: int|
        0 <= i < logits.len() && (#[trigger] logits[i]).cost == cost && logits[i].worker_id == key
}

/// Whether the choice needs softmax weights: a positive temperature and
/// at least two distinct costs.
pub open spec fn is_weighted(logits: Seq<Candidate>, temperature_milli: u32) -> bool {
    temperature_milli != 0 && min_cost(logits) != max_cost(logits)
}

/// The equally likely outcomes of a choice that is not weighted: the
/// cheapest workers. When all costs are equal these are all workers.
pub open spec fn outcomes(logits: Seq<Candidate>, temperature_milli: u32) -> Seq<i64> {
    if is_weighted(logits, temperature_milli) {
        Seq::empty()
    } else {
        keys_at_cost(logits, min_cost(logits))
    }
}

/// What sampling yields when the random draw is `draw`.
pub open spec fn sample_of(logits: Seq<Candidate>, temperature_milli: u32, draw: usize) -> Sample {
    let keys = outcomes(logits, temperature_milli);
    if keys.len() == 0 {
        Sample::Weighted
    } else {
        Sample::Key(keys[draw as int % keys.len() as int])
    }
}

/// `min_cost` is a lower bound of the costs and one candidate attains it.
pub proof fn lemma_min_cost(logits: Seq<Candidate>)
    requires
        logits.len() > 0,
    ensures
        forall|j: int| 0 <= j < logits.len() ==> min_cost(logits) <= #[trigger] logits[j].cost,
        exists|i: int| 0 <= i < logits.len() && #[trigger] logits[i].cost == min_cost(logits),
    decreases logits.len(),
{
    if logits.len() == 1 {
        assert(logits[0].cost == min_cost(logits));
    } else {
        let front = logits.drop_last();
        lemma_min_cost(front);
        let i = choose|i: int| 0 <= i < front.len() && #[trigger] front[i].cost == min_cost(front);
        assert(front[i] == logits[i]);
        assert forall|j: int| 0 <= j < logits.len() implies min_cost(logits)
            <= #[trigger] logits[j].cost by {
            if j < front.len() {
                assert(front[j] == logits[j]);
            }
        }
        if logits.last().cost < min_cost(front) {
            assert(logits[logits.len() - 1].cost == min_cost(logits));
        } else {
            assert(logits[i].cost == min_cost(logits));
        }
    }
}

/// `max_cost` is an upper bound of the costs.
pub proof fn lemma_max_cost(logits: Seq<Candidate>)
    requires
        logits.len() > 0,
    ensures
        forall|j: int| 0 <= j < logits.len() ==> max_cost(logits) >= #[trigger] logits[j].cost,
    decreases logits.len(),
{
    if logits.len() > 1 {
        let front = logits.drop_last();
        lemma_max_cost(front);
        assert forall|j: int| 0 <= j < logits.len() implies max_cost(logits)
            >= #[trigger] logits[j].cost by {
            if j < front.len() {
                assert(front[j] == logits[j]);
            }
        }
    }
}

/// Every key listed at a cost belongs to a candidate with that cost, and
/// the list is never longer than the candidates.
pub proof fn lemma_keys_at_cost(logits: Seq<Candidate>, cost: int)
    ensures
        keys_at_cost(logits, cost).len() <= logits.len(),
        forall|k: int|
            0 <= k < keys_at_cost(logits, cost).len() ==> has_key_at_cost(
                logits,
                #[trigger] keys_at_cost(logits, cost)[k],
                cost,
            ),
    decreases logits.len(),
{
    if logits.len() > 0 {
        let front = logits.drop_last();
        lemma_keys_at_cost(front, cost);
        let keys = keys_at_cost(logits, cost);
        let rest = keys_at_cost(front, cost);
        assert forall|k: int| 0 <= k < keys.len() implies has_key_at_cost(
            logits,
            #[trigger] keys[k],
            cost,
        ) by {
            if k < rest.len() {
                assert(keys[k] == rest[k]);
                assert(has_key_at_cost(front, rest[k], cost));
                let i = choose|i: int|
                    0 <= i < front.len() && (#[trigger] front[i]).cost == cost
                        && front[i].worker_id == rest[k];
                assert(front[i] == logits[i]);
            } else {
                let i = logits.len() - 1;
                assert(logits[i].cost == cost && logits[i].worker_id == keys[k]);
            }
        }
    }
}

/// A candidate with the listed cost has its key in the list.
pub proof fn lemma_keys_at_cost_holds(logits: Seq<Candidate>, cost: int, i: int)
    requires
        0 <= i < logits.len(),
        logits[i].cost == cost,
    ensures
        keys_at_cost(logits, cost).contains(logits[i].worker_id),
    decreases logits.len(),
{
    let front = logits.drop_last();
    let keys = keys_at_cost(logits, cost);
    let rest = keys_at_cost(front, cost);
    if i == logits.len() - 1 {
        assert(keys[rest.len() as int] == logits[i].worker_id);
    } else {
        assert(front[i] == logits[i]);
        lemma_keys_at_cost_holds(front, cost, i);
        let k = choose|k: int| 0 <= k < rest.len() && rest[k] == logits[i].worker_id;
        assert(keys[k] == logits[i].worker_id);
    }
}

/// When every candidate has the listed cost, the list holds every key.
pub proof fn lemma_keys_at_common_cost(logits: Seq<Candidate>, cost: int)
    requires
        forall|j: int| 0 <= j < logits.len() ==> #[trigger] logits[j].cost == cost,
    ensures
        keys_at_cost(logits, cost) == keys_of(logits),
    decreases logits.len(),
{
    if logits.len() > 0 {
        let front = logits.drop_last();
        assert forall|j: int| 0 <= j < front.len() implies #[trigger] front[j].cost == cost by {
            assert(front[j] == logits[j]);
        }
        lemma_keys_at_common_cost(front, cost);
        assert(logits[logits.len() - 1].cost == cost);
        assert(keys_at_cost(logits, cost) =~= keys_of(logits));
    } else {
        assert(keys_at_cost(logits, cost) =~= keys_of(logits));
    }
}

/// With equal costs every worker is an outcome, whatever the temperature.
pub proof fn lemma_uniform_outcomes(logits: Seq<Candidate>, temperature_milli: u32)
    requires
        logits.len() > 0,
        min_cost(logits) == max_cost(logits),
    ensures
        outcomes(logits, temperature_milli) == keys_of(logits),
{
    lemma_min_cost(logits);
    lemma_max_cost(logits);
    lemma_keys_at_common_cost(logits, min_cost(logits));
}

/// A single candidate is the only outcome, for any cost and any
/// temperature, zero included.
pub proof fn lemma_single_candidate(logits: Seq<Candidate>, temperature_milli: u32, draw: usize)
    requires
        logits.len() == 1,
    ensures
        sample_of(logits, temperature_milli, draw) == Sample::Key(logits[0].worker_id),
{
    lemma_uniform_outcomes(logits, temperature_milli);
    assert(keys_of(logits).len() == 1);
}

/// At temperature zero every draw yields a worker whose cost is the
/// minimum over all candidates.
pub proof fn lemma_zero_temperature_is_argmin(logits: Seq<Candidate>, draw: usize)
    requires
        logits.len() > 0,
    ensures
        sample_of(logits, 0, draw) matches Sample::Key(key) && is_cheapest_key(logits, key),
{
    lemma_outcomes_are_cheapest(logits, 0);
    let keys = outcomes(logits, 0);
    let k = draw as int % keys.len() as int;
    assert(is_cheapest_key(logits, keys[k]));
}

/// A choice that is not weighted has at least one outcome, and each
/// outcome is a worker of minimal cost.
pub proof fn lemma_outcomes_are_cheapest(logits: Seq<Candidate>, temperature_milli: u32)
    requires
        logits.len() > 0,
        !is_weighted(logits, temperature_milli),
    ensures
        0 < outcomes(logits, temperature_milli).len() <= logits.len(),
        forall|k: int|
            0 <= k < outcomes(logits, temperature_milli).len() ==> is_cheapest_key(
                logits,
                #[trigger] outcomes(logits, temperature_milli)[k],
            ),
{
    let low = min_cost(logits);
    let keys = outcomes(logits, temperature_milli);
    lemma_min_cost(logits);
    lemma_keys_at_cost(logits, low);
    let w = choose|i: int| 0 <= i < logits.len() && #[trigger] logits[i].cost == low;
    lemma_keys_at_cost_holds(logits, low, w);
    assert forall|k: int| 0 <= k < keys.len() implies is_cheapest_key(logits, #[trigger] keys[k]) by {
        assert(has_key_at_cost(logits, keys[k], low));
        let i = choose|i: int|
            0 <= i < logits.len() && (#[trigger] logits[i]).cost == low && logits[i].worker_id
                == keys[k];
        assert(is_cheapest(logits, i));
    }
}

fn lowest_cost(logits: &Vec<Candidate>) -> (low: i128)
    requires
        logits.len() > 0,
    ensures
        low == min_cost(logits@),
{
    let mut low: i128 = logits[0].cost;
    let mut i: usize = 1;
    assert(logits@.take(1).len() == 1 && logits@.take(1)[0] == logits@[0]);
    while i < logits.len()
        invariant
            1 <= i <= logits.len(),
            low == min_cost(logits@.take(i as int)),
        decreases logits.len() - i,
    {
        assert(logits@.take(i + 1).drop_last() =~= logits@.take(i as int));
        assert(logits@.take(i + 1).last() == logits@[i as int]);
        if logits[i].cost < low {
            low = logits[i].cost;
        }
        i += 1;
    }
    assert(logits@.take(i as int) =~= logits@);
    low
}

fn highest_cost(logits: &Vec<Candidate>) -> (high: i128)
    requires
        logits.len() > 0,
    ensures
        high == max_cost(logits@),
{
    let mut high: i128 = logits[0].cost;
    let mut i: usize = 1;
    assert(logits@.take(1).len() == 1 && logits@.take(1)[0] == logits@[0]);
    while i < logits.len()
        invariant
            1 <= i <= logits.len(),
            high == max_cost(logits@.take(i as int)),
        decreases logits.len() - i,
    {
        assert(logits@.take(i + 1).drop_last() =~= logits@.take(i as int));
        assert(logits@.take(i + 1).last() == logits@[i as int]);
        if logits[i].cost > high {
            high = logits[i].cost;
        }
        i += 1;
    }
    assert(logits@.take(i as int) =~= logits@);
    high
}

fn keys_with_cost(logits: &Vec<Candidate>, cost: i128) -> (keys: Vec<i64>)
    ensures
        keys@ == keys_at_cost(logits@, cost as int),
{
    let mut keys: Vec<i64> = Vec::new();
    let mut i: usize = 0;
    while i < logits.len()
        invariant
            i <= logits.len(),
            keys@ == keys_at_cost(logits@.take(i as int), cost as int),
        decreases logits.len() - i,
    {
        assert(logits@.take(i + 1).drop_last() =~= logits@.take(i as int));
        assert(logits@.take(i + 1).last() == logits@[i as int]);
        if logits[i].cost == cost {
            keys.push(logits[i].worker_id);
        }
        i += 1;
    }
    assert(logits@.take(i as int) =~= logits@);
    keys
}

/// The equally likely workers of a choice that needs no softmax weights;
/// empty when it needs them.
pub fn equally_likely(logits: &Vec<Candidate>, temperature_milli: u32) -> (keys: Vec<i64>)
    requires
        logits.len() > 0,
    ensures
        keys@ == outcomes(logits@, temperature_milli),
        keys.len() == 0 <==> is_weighted(logits@, temperature_milli),
{
    let low = lowest_cost(logits);
    if temperature_milli != 0 && low != highest_cost(logits) {
        Vec::new()
    } else {
        proof {
            lemma_outcomes_are_cheapest(logits@, temperature_milli);
        }
        keys_with_cost(logits, low)
    }
}

/// Samples with a given draw instead of a random one: the outcome at
/// position `draw` modulo the number of outcomes.
pub fn sample_with_draw(logits: &Vec<Candidate>, temperature_milli: u32, draw: usize) -> (sample:
    Sample)
    requires
        logits.len() > 0,
    ensures
        sample == sample_of(logits@, temperature_milli, draw),
        sample is Weighted <==> is_weighted(logits@, temperature_milli),
{
    let keys = equally_likely(logits, temperature_milli);
    if keys.len() == 0 {
        Sample::Weighted
    } else {
        Sample::Key(keys[draw % keys.len()])
    }
}

/// Draws an index with `rand::Rng::random_range` over `0..bound` on the
/// thread-local generator `rand::rng()`. The draw is random, so the
/// contract claims only what holds of every draw: it lies below `bound`.
/// The outside call panics on an empty range, which `bound > 0` excludes.
#[verifier::external_body]
fn random_index(bound: usize) -> (index: usize)
    requires
        bound > 0,
    ensures
        index < bound,
{
    rand::rng().random_range(0..bound)
}

/// Chooses a worker among `logits`.
///
/// At temperature zero the result is one of the cheapest workers, ties
/// broken at random. With equal costs it is any worker, each equally
/// likely. Otherwise the choice is `Sample::Weighted`.
pub fn softmax_sample(logits: &Vec<Candidate>, temperature_milli: u32) -> (sample: Sample)
    requires
        logits.len() > 0,
    ensures
        sample is Weighted <==> is_weighted(logits@, temperature_milli),
        temperature_milli == 0 ==> sample is Key,
        sample matches Sample::Key(key) ==> outcomes(logits@, temperature_milli).contains(key),
        sample matches Sample::Key(key) ==> is_cheapest_key(logits@, key),
        logits.len() == 1 ==> sample == Sample::Key(logits[0].worker_id),
{
    let keys = equally_likely(logits, temperature_milli);
    if keys.len() == 0 {
        Sample::Weighted
    } else {
        let draw = random_index(keys.len());
        proof {
            lemma_outcomes_are_cheapest(logits@, temperature_milli);
            if logits.len() == 1 {
                lemma_single_candidate(logits@, temperature_milli, draw);
            }
        }
        Sample::Key(keys[draw])
    }
}

} // verus!
