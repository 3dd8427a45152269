//! Decisions of the fleet-state subscriber: which source to serve next,
//! what a membership change means, when to snapshot and whom to reap.

use crate::keys::{
    contains_bytes, last_segment, occurs_in, same_bytes, take_last_segment, worker_id_from_key,
    worker_id_of,
};
use vstd::prelude::*;
use vstd::string::StringExecFns;

verus! {

/// `url::ParseError`, carried as it is: nothing is read from it.
#[verifier::external_type_specification]
#[verifier::external_body]
pub struct ExUrlParseError(url::ParseError);

/// Seconds between two looks at the depth of the stream.
pub const SNAPSHOT_TICK_SECS: u64 = 1;

/// Milliseconds to wait after a failed dequeue.
pub const DEQUEUE_RETRY_MILLIS: u64 = 100;

/// Object under which the snapshot is stored in its bucket.
pub const RADIX_STATE_FILE: &'static str = "radix_state";

/// `name` with every underscore turned into a dash.
pub open spec fn dashed(name: Seq<u8>) -> Seq<u8> {
    Seq::new(
        name.len(),
        |i: int|
            if name[i] == 95 {
                45u8
            } else {
                name[i]
            },
    )
}

/// The bytes of `-radix-state`, which end the name of a snapshot bucket.
pub open spec fn bucket_suffix() -> Seq<u8> {
    seq![45u8, 114, 97, 100, 105, 120, 45, 115, 116, 97, 116, 101]
}

/// Name of the bucket that holds the snapshot of a component: the
/// component's slug, then `-radix-state`, with dashes for underscores.
pub open spec fn bucket_of(component: Seq<u8>) -> Seq<u8> {
    dashed(component + bucket_suffix())
}

/// Builds the name of the snapshot bucket from the component's slug.
pub fn snapshot_bucket(component: &[u8]) -> (name: Vec<u8>)
    ensures
        name@ == bucket_of(component@),
{
    let suffix: Vec<u8> = vec![45u8, 114, 97, 100, 105, 120, 45, 115, 116, 97, 116, 101];
    assert(suffix@ =~= bucket_suffix());
    let mut name: Vec<u8> = Vec::new();
    let mut i: usize = 0;
    while i < component.len()
        invariant
            i <= component.len(),
            name@ == dashed(component@.take(i as int)),
        decreases component.len() - i,
    {
        let b = component[i];
        name.push(if b == 95 { 45 } else { b });
        assert(name@ =~= dashed(component@.take(i + 1)));
        i += 1;
    }
    assert(component@.take(i as int) =~= component@);
    let mut j: usize = 0;
    while j < suffix.len()
        invariant
            j <= suffix.len(),
            suffix@ == bucket_suffix(),
            name@ == dashed(component@ + suffix@.take(j as int)),
        decreases suffix.len() - j,
    {
        let b = suffix[j];
        name.push(if b == 95 { 45 } else { b });
        assert(name@ =~= dashed(component@ + suffix@.take(j + 1)));
        j += 1;
    }
    assert(suffix@.take(j as int) =~= suffix@);
    name
}

/// Why a snapshot could not be addressed.
#[derive(Debug, Clone, Copy, PartialEq, Eq, Structural)]
pub enum SnapshotError {
    /// The address of the snapshot is no URL.
    InvalidUrl,
}

/// The text of the URL that `text` parses to, when it parses to one.
pub uninterp spec fn parsed_url(text: Seq<char>) -> Option<Seq<char>>;

/// Parses a URL with `url::Url::parse` and hands back its serialization,
/// which `String::from` takes out of the parsed value. The result is a
/// function of the text alone and is named, not described.
#[verifier::external_body]
fn parse_url(text: &str) -> (parsed: Result<String, url::ParseError>)
    ensures
        match parsed {
            Ok(url) => parsed_url(text@) == Some(url@),
            Err(_) => parsed_url(text@) is None,
        },
{
    url::Url::parse(text).map(String::from)
}

/// Where the snapshot of a bucket lies on a server, as written before
/// parsing.
pub open spec fn snapshot_address(server: Seq<char>, bucket: Seq<char>) -> Seq<char> {
    "nats://"@ + server + "/"@ + bucket + "/"@ + RADIX_STATE_FILE@
}

/// The URL of the snapshot of `bucket` on `server`.
pub fn snapshot_url(server: &str, bucket: &str) -> (url: Result<String, SnapshotError>)
    ensures
        match url {
            Ok(u) => parsed_url(snapshot_address(server@, bucket@)) == Some(u@),
            Err(e) => e == SnapshotError::InvalidUrl && parsed_url(
                snapshot_address(server@, bucket@),
            ) is None,
        },
{
    let mut text = "nats://".to_owned();
    text.append(server);
    text.append("/");
    text.append(bucket);
    text.append("/");
    text.append(RADIX_STATE_FILE);
    match parse_url(text.as_str()) {
        Ok(u) => Ok(u),
        Err(_) => Err(SnapshotError::InvalidUrl),
    }
}

/// The sources the subscriber waits on.
#[derive(Debug, Clone, Copy, PartialEq, Eq, Structural)]
pub enum Source {
    Cancellation,
    WorkerDeparture,
    Dequeue,
    Tick,
    PeerDeparture,
}

/// Which sources have something to deliver.
#[derive(Debug, Clone, Copy, PartialEq, Eq, Structural)]
pub struct Ready {
    pub cancellation: bool,
    pub worker_departure: bool,
    pub dequeue: bool,
    pub tick: bool,
    pub peer_departure: bool,
}

/// Place of a source in the order of service; lower is served first.
pub open spec fn rank(source: Source) -> nat {
    match source {
        Source::Cancellation => 0,
        Source::WorkerDeparture => 1,
        Source::Dequeue => 2,
        Source::Tick => 3,
        Source::PeerDeparture => 4,
    }
}

/// Whether `source` has something to deliver.
pub open spec fn is_ready(ready: Ready, source: Source) -> bool {
    match source {
        Source::Cancellation => ready.cancellation,
        Source::WorkerDeparture => ready.worker_departure,
        Source::Dequeue => ready.dequeue,
        Source::Tick => ready.tick,
        Source::PeerDeparture => ready.peer_departure,
    }
}

/// The source to serve next: the ready one of lowest rank.
pub fn next_source(ready: Ready) -> (next: Option<Source>)
    ensures
        match next {
            Some(source) => is_ready(ready, source) && forall|other: Source|
                is_ready(ready, other) ==> rank(source) <= rank(other),
            None => forall|other: Source| !is_ready(ready, other),
        },
{
    if ready.cancellation {
        Some(Source::Cancellation)
    } else if ready.worker_departure {
        Some(Source::WorkerDeparture)
    } else if ready.dequeue {
        Some(Source::Dequeue)
    } else if ready.tick {
        Some(Source::Tick)
    } else if ready.peer_departure {
        Some(Source::PeerDeparture)
    } else {
        None
    }
}

/// What becomes of the stored snapshot when the subscriber starts.
#[derive(Debug, Clone, Copy, PartialEq, Eq, Structural)]
pub enum Bootstrap {
    /// Delete the snapshot bucket.
    DeleteBucket,
    /// Download the snapshot and replay its events in stored order.
    ReplaySnapshot,
}

/// The bootstrap step for a subscriber started with or without a reset.
pub fn bootstrap(reset: bool) -> (step: Bootstrap)
    ensures
        step == if reset {
            Bootstrap::DeleteBucket
        } else {
            Bootstrap::ReplaySnapshot
        },
{
    if reset {
        Bootstrap::DeleteBucket
    } else {
        Bootstrap::ReplaySnapshot
    }
}

/// A change in a watched directory, with the key it concerns.
pub enum WatchEvent {
    Put(Vec<u8>),
    Delete(Vec<u8>),
}

/// The worker to remove from the indexer after a change in the
/// live-worker directory: the one whose key was deleted, when the key
/// ends in a hexadecimal worker id.
pub fn departed_worker(event: &WatchEvent) -> (worker_id: Option<i64>)
    ensures
        worker_id == match *event {
            WatchEvent::Delete(key) => worker_id_of(key@),
            WatchEvent::Put(_) => None,
        },
{
    match event {
        WatchEvent::Delete(key) => worker_id_from_key(key.as_slice()),
        WatchEvent::Put(_) => None,
    }
}

/// The consumer that a deleted router key leaves behind: the last path
/// segment of the key, when the key names this component and the segment
/// is not this router's own id.
pub open spec fn departed_peer_of(key: Seq<u8>, component_path: Seq<u8>, own_uuid: Seq<u8>)
    -> Option<Seq<u8>> {
    if occurs_in(key, component_path) && last_segment(key, 47) != own_uuid {
        Some(last_segment(key, 47))
    } else {
        None
    }
}

/// The consumer to delete after a change in the live-routers directory.
pub fn departed_peer(event: &WatchEvent, component_path: &[u8], own_uuid: &[u8]) -> (consumer:
    Option<Vec<u8>>)
    ensures
        match *event {
            WatchEvent::Delete(key) => match departed_peer_of(key@, component_path@, own_uuid@) {
                Some(uuid) => consumer is Some && consumer->0@ == uuid,
                None => consumer is None,
            },
            WatchEvent::Put(_) => consumer is None,
        },
{
    match event {
        WatchEvent::Delete(key) => {
            if !contains_bytes(key.as_slice(), component_path) {
                return None;
            }
            let uuid = take_last_segment(key.as_slice(), 47);
            if same_bytes(uuid.as_slice(), own_uuid) {
                None
            } else {
                Some(uuid)
            }
        },
        WatchEvent::Put(_) => None,
    }
}

/// Whether the stream is deep enough for a snapshot: a threshold is set
/// and the stream holds more messages than it.
pub fn snapshot_due(message_count: u64, threshold: Option<u32>) -> (due: bool)
    ensures
        due == match threshold {
            Some(t) => message_count > t,
            None => false,
        },
{
    match threshold {
        Some(t) => message_count > t as u64,
        None => false,
    }
}

/// The ids of `known` that are not among `live`, in the order of `known`.
pub open spec fn stale_of(known: Seq<i64>, live: Seq<i64>) -> Seq<i64>
    decreases known.len(),
{
    if known.len() == 0 {
        Seq::empty()
    } else {
        let rest = stale_of(known.drop_last(), live);
        if live.contains(known.last()) {
            rest
        } else {
            rest.push(known.last())
        }
    }
}

/// A worker is stale exactly when the indexer knows it and it is not live.
pub proof fn lemma_stale_of(known: Seq<i64>, live: Seq<i64>, worker_id: i64)
    ensures
        stale_of(known, live).contains(worker_id) <==> known.contains(worker_id) && !live.contains(
            worker_id,
        ),
    decreases known.len(),
{
    if known.len() > 0 {
        let front = known.drop_last();
        let rest = stale_of(front, live);
        let all = stale_of(known, live);
        lemma_stale_of(front, live, worker_id);
        if all.contains(worker_id) {
            let k = choose|k: int| 0 <= k < all.len() && all[k] == worker_id;
            if k < rest.len() {
                assert(rest[k] == worker_id);
                let i = choose|i: int| 0 <= i < front.len() && front[i] == worker_id;
                assert(known[i] == worker_id);
            } else {
                assert(known[known.len() - 1] == worker_id);
            }
        }
        if known.contains(worker_id) && !live.contains(worker_id) {
            let i = choose|i: int| 0 <= i < known.len() && known[i] == worker_id;
            if i < front.len() {
                assert(front[i] == worker_id);
                let k = choose|k: int| 0 <= k < rest.len() && rest[k] == worker_id;
                assert(all[k] == worker_id);
            } else {
                assert(all[rest.len() as int] == worker_id);
            }
        }
    }
}

fn lists_id(ids: &Vec<i64>, id: i64) -> (listed: bool)
    ensures
        listed == ids@.contains(id),
{
    let mut i: usize = 0;
    while i < ids.len()
        invariant
            i <= ids.len(),
            forall|k: int| 0 <= k < i ==> ids@[k] != id,
        decreases ids.len() - i,
    {
        if ids[i] == id {
            return true;
        }
        i += 1;
    }
    false
}

/// The workers the indexer still knows although they are no longer live.
pub fn stale_workers(indexer_ids: &Vec<i64>, live_ids: &Vec<i64>) -> (stale: Vec<i64>)
    ensures
        stale@ == stale_of(indexer_ids@, live_ids@),
{
    let mut stale: Vec<i64> = Vec::new();
    let mut i: usize = 0;
    while i < indexer_ids.len()
        invariant
            i <= indexer_ids.len(),
            stale@ == stale_of(indexer_ids@.take(i as int), live_ids@),
        decreases indexer_ids.len() - i,
    {
        assert(indexer_ids@.take(i + 1).drop_last() =~= indexer_ids@.take(i as int));
        assert(indexer_ids@.take(i + 1).last() == indexer_ids@[i as int]);
        if !lists_id(live_ids, indexer_ids[i]) {
            stale.push(indexer_ids[i]);
        }
        i += 1;
    }
    assert(indexer_ids@.take(i as int) =~= indexer_ids@);
    stale
}

/// One step of snapshot maintenance.
#[derive(Debug, Clone, Copy, PartialEq, Eq, Structural)]
pub enum SnapshotStep {
    /// Tell the indexer to forget a worker.
    RemoveWorker(i64),
    /// Purge acknowledged messages from the stream.
    Purge,
    /// Ask the indexer for all its events.
    Dump,
    /// Upload the events to the snapshot bucket.
    Upload,
}

/// The steps taken under the snapshot lock: first every stale worker is
/// removed, then the stream is purged, and only then is the state dumped
/// and uploaded.
pub open spec fn snapshot_plan_of(stale: Seq<i64>) -> Seq<SnapshotStep> {
    Seq::new(stale.len(), |i: int| SnapshotStep::RemoveWorker(stale[i])) + seq![
        SnapshotStep::Purge,
        SnapshotStep::Dump,
        SnapshotStep::Upload,
    ]
}

/// Plans one round of snapshot maintenance. `indexer_ids` is what the
/// indexer answered when asked for its workers, if it answered.
pub fn snapshot_plan(indexer_ids: Option<&Vec<i64>>, live_ids: &Vec<i64>) -> (plan: Vec<
    SnapshotStep,
>)
    ensures
        plan@ == snapshot_plan_of(
            match indexer_ids {
                Some(ids) => stale_of(ids@, live_ids@),
                None => Seq::empty(),
            },
        ),
{
    let stale = match indexer_ids {
        Some(ids) => stale_workers(ids, live_ids),
        None => Vec::new(),
    };
    let mut plan: Vec<SnapshotStep> = Vec::new();
    let mut i: usize = 0;
    while i < stale.len()
        invariant
            i <= stale.len(),
            plan.len() == i,
            forall|k: int| 0 <= k < i ==> plan@[k] == SnapshotStep::RemoveWorker(stale@[k]),
        decreases stale.len() - i,
    {
        plan.push(SnapshotStep::RemoveWorker(stale[i]));
        i += 1;
    }
    plan.push(SnapshotStep::Purge);
    plan.push(SnapshotStep::Dump);
    plan.push(SnapshotStep::Upload);
    assert(plan@ =~= snapshot_plan_of(stale@));
    plan
}

/// Whether some router entry ends in `consumer`.
pub open spec fn is_active(router_keys: Seq<Vec<u8>>, consumer: Seq<u8>) -> bool {
    exists|i: int|
        0 <= i < router_keys.len() && last_segment((#[trigger] router_keys[i])@, 47) == consumer
}

/// Whether a durable consumer has lost its router: it is not this
/// router's own and no live router entry ends in its name.
pub open spec fn is_orphan(consumer: Seq<u8>, router_keys: Seq<Vec<u8>>, own_uuid: Seq<u8>)
    -> bool {
    consumer != own_uuid && !is_active(router_keys, consumer)
}

/// Positions in `consumers` of the orphans, in ascending order.
pub open spec fn orphans_of(
    consumers: Seq<Vec<u8>>,
    router_keys: Seq<Vec<u8>>,
    own_uuid: Seq<u8>,
) -> Seq<usize>
    decreases consumers.len(),
{
    if consumers.len() == 0 {
        Seq::empty()
    } else {
        let rest = orphans_of(consumers.drop_last(), router_keys, own_uuid);
        if is_orphan(consumers.last()@, router_keys, own_uuid) {
            rest.push((consumers.len() - 1) as usize)
        } else {
            rest
        }
    }
}

/// Tells whether a durable consumer has lost its router.
pub fn is_orphaned_consumer(consumer: &[u8], router_keys: &Vec<Vec<u8>>, own_uuid: &[u8]) -> (orphan:
    bool)
    ensures
        orphan == is_orphan(consumer@, router_keys@, own_uuid@),
{
    if same_bytes(consumer, own_uuid) {
        return false;
    }
    let mut i: usize = 0;
    while i < router_keys.len()
        invariant
            i <= router_keys.len(),
            forall|k: int|
                0 <= k < i ==> last_segment((#[trigger] router_keys@[k])@, 47) != consumer@,
        decreases router_keys.len() - i,
    {
        let uuid = take_last_segment(router_keys[i].as_slice(), 47);
        if same_bytes(uuid.as_slice(), consumer) {
            return false;
        }
        i += 1;
    }
    true
}

/// The positions of the durable consumers to delete at startup: those
/// that are neither this router's own nor named by a live router entry.
pub fn orphaned_consumers(
    consumers: &Vec<Vec<u8>>,
    router_keys: &Vec<Vec<u8>>,
    own_uuid: &[u8],
) -> (orphans: Vec<usize>)
    ensures
        orphans@ == orphans_of(consumers@, router_keys@, own_uuid@),
{
    let mut orphans: Vec<usize> = Vec::new();
    let mut i: usize = 0;
    while i < consumers.len()
        invariant
            i <= consumers.len(),
            orphans@ == orphans_of(consumers@.take(i as int), router_keys@, own_uuid@),
        decreases consumers.len() - i,
    {
        assert(consumers@.take(i + 1).drop_last() =~= consumers@.take(i as int));
        assert(consumers@.take(i + 1).last() == consumers@[i as int]);
        if is_orphaned_consumer(consumers[i].as_slice(), router_keys, own_uuid) {
            orphans.push(i);
        }
        i += 1;
    }
    assert(consumers@.take(i as int) =~= consumers@);
    orphans
}

/// This router's own consumer is never among the orphans, and neither is
/// one that a live router entry names.
pub proof fn lemma_orphans_of(
    consumers: Seq<Vec<u8>>,
    router_keys: Seq<Vec<u8>>,
    own_uuid: Seq<u8>,
)
    requires
        consumers.len() <= usize::MAX,
    ensures
        forall|k: int|
            0 <= k < orphans_of(consumers, router_keys, own_uuid).len() ==> {
                let at = #[trigger] orphans_of(consumers, router_keys, own_uuid)[k];
                &&& at < consumers.len()
                &&& consumers[at as int]@ != own_uuid
                &&& !is_active(router_keys, consumers[at as int]@)
            },
    decreases consumers.len(),
{
    if consumers.len() > 0 {
        let front = consumers.drop_last();
        lemma_orphans_of(front, router_keys, own_uuid);
        let rest = orphans_of(front, router_keys, own_uuid);
        let all = orphans_of(consumers, router_keys, own_uuid);
        assert forall|k: int| 0 <= k < all.len() implies ({
            let at = #[trigger] all[k];
            &&& at < consumers.len()
            &&& consumers[at as int]@ != own_uuid
            &&& !is_active(router_keys, consumers[at as int]@)
        }) by {
            if k < rest.len() {
                assert(all[k] == rest[k]);
                assert(front[rest[k] as int] == consumers[rest[k] as int]);
            } else {
                assert(all[k] == consumers.len() - 1);
            }
        }
    }
}

/// What came off the stream.
#[derive(Debug, Clone, Copy, PartialEq, Eq, Structural)]
pub enum Dequeued {
    /// A message that decodes to an event.
    Event,
    /// A message that does not decode.
    Undecodable,
    /// Nothing within the dequeue timeout.
    Timeout,
    /// The dequeue itself failed.
    Failed,
}

/// What the subscriber does with what came off the stream. When the
/// indexer no longer takes a forwarded event, the subscriber stops.
#[derive(Debug, Clone, Copy, PartialEq, Eq, Structural)]
pub enum DequeueAction {
    /// Forward the event to the indexer.
    Forward,
    /// Go on with the next source.
    Continue,
    /// Wait this many milliseconds, then go on.
    RetryAfter { millis: u64 },
}

/// Decides what to do with what came off the stream: events are
/// forwarded, undecodable messages and timeouts are passed over, and a
/// failed dequeue is retried after a pause.
pub fn after_dequeue(dequeued: Dequeued) -> (action: DequeueAction)
    ensures
        action == match dequeued {
            Dequeued::Event => DequeueAction::Forward,
            Dequeued::Undecodable => DequeueAction::Continue,
            Dequeued::Timeout => DequeueAction::Continue,
            Dequeued::Failed => (DequeueAction::RetryAfter { millis: DEQUEUE_RETRY_MILLIS }),
        },
{
    match dequeued {
        Dequeued::Event => DequeueAction::Forward,
        Dequeued::Undecodable => DequeueAction::Continue,
        Dequeued::Timeout => DequeueAction::Continue,
        Dequeued::Failed => DequeueAction::RetryAfter { millis: DEQUEUE_RETRY_MILLIS },
    }
}

/// What the subscriber knows about itself.
pub struct SubscriberConfig {
    /// Path of the component, as it occurs in router keys.
    pub component_path: Vec<u8>,
    /// This router's id, which is also the name of its consumer.
    pub consumer_uuid: Vec<u8>,
    /// Stream depth above which a snapshot is due, when snapshots are on.
    pub snapshot_threshold: Option<u32>,
    /// Whether the indexer can be asked for its workers and its events.
    pub snapshots: bool,
}

/// What the subscriber's loop is woken by.
pub enum SubscriberEvent {
    /// The cancellation signal.
    Cancelled,
    /// A change in the live-worker directory.
    InstanceChange(WatchEvent),
    /// The outcome of a dequeue.
    Dequeued(Dequeued),
    /// The indexer did not take a forwarded event.
    ForwardFailed,
    /// The snapshot timer, with the depth of the stream when it could be
    /// read.
    Tick { message_count: Option<u64> },
    /// A change in the live-routers directory.
    RouterChange(WatchEvent),
}

/// What the subscriber's loop does next.
pub enum SubscriberAction {
    /// Delete the own consumer and leave the loop.
    Shutdown,
    /// Tell the indexer to forget a worker.
    RemoveWorker(i64),
    /// Hand the dequeued event to the indexer.
    Forward,
    /// Wait this many milliseconds.
    Sleep { millis: u64 },
    /// Try to take the snapshot lock and, with it, carry out the plan of
    /// `snapshot_plan`.
    Snapshot,
    /// Delete this consumer from the stream, under the cleanup lock.
    DeleteConsumer(Vec<u8>),
    /// Go on waiting.
    Nothing,
}

/// Whether `action` is what the subscriber does on `event`.
///
/// Cancellation and an indexer that is gone end the loop. A deleted
/// instance key that ends in a worker id removes that worker. A decoded
/// message is forwarded, an undecodable one and a timeout are passed
/// over, and a failed dequeue is followed by a pause. A tick starts a
/// snapshot when snapshots are on and the stream is deeper than the
/// threshold. A deleted router key of this component, not this router's
/// own, has its consumer deleted.
pub open spec fn reacts(config: SubscriberConfig, event: SubscriberEvent, action: SubscriberAction)
    -> bool {
    match event {
        SubscriberEvent::Cancelled => action is Shutdown,
        SubscriberEvent::ForwardFailed => action is Shutdown,
        SubscriberEvent::InstanceChange(WatchEvent::Delete(key)) => match worker_id_of(key@) {
            Some(id) => action matches SubscriberAction::RemoveWorker(w) && w == id,
            None => action is Nothing,
        },
        SubscriberEvent::InstanceChange(WatchEvent::Put(_)) => action is Nothing,
        SubscriberEvent::Dequeued(Dequeued::Event) => action is Forward,
        SubscriberEvent::Dequeued(Dequeued::Undecodable) => action is Nothing,
        SubscriberEvent::Dequeued(Dequeued::Timeout) => action is Nothing,
        SubscriberEvent::Dequeued(Dequeued::Failed) => action matches SubscriberAction::Sleep {
            millis,
        } && millis == DEQUEUE_RETRY_MILLIS,
        SubscriberEvent::Tick { message_count } => if config.snapshots && message_count is Some
            && config.snapshot_threshold is Some && message_count->0
            > config.snapshot_threshold->0 {
            action is Snapshot
        } else {
            action is Nothing
        },
        SubscriberEvent::RouterChange(WatchEvent::Delete(key)) => match departed_peer_of(
            key@,
            config.component_path@,
            config.consumer_uuid@,
        ) {
            Some(uuid) => action matches SubscriberAction::DeleteConsumer(c) && c@ == uuid,
            None => action is Nothing,
        },
        SubscriberEvent::RouterChange(WatchEvent::Put(_)) => action is Nothing,
    }
}

/// Decides what the subscriber does on an event.
pub fn on_event(config: &SubscriberConfig, event: SubscriberEvent) -> (action: SubscriberAction)
    ensures
        reacts(*config, event, action),
{
    match event {
        SubscriberEvent::Cancelled => SubscriberAction::Shutdown,
        SubscriberEvent::ForwardFailed => SubscriberAction::Shutdown,
        SubscriberEvent::InstanceChange(change) => match departed_worker(&change) {
            Some(id) => SubscriberAction::RemoveWorker(id),
            None => SubscriberAction::Nothing,
        },
        SubscriberEvent::Dequeued(dequeued) => match after_dequeue(dequeued) {
            DequeueAction::Forward => SubscriberAction::Forward,
            DequeueAction::Continue => SubscriberAction::Nothing,
            DequeueAction::RetryAfter { millis } => SubscriberAction::Sleep { millis },
        },
        SubscriberEvent::Tick { message_count } => {
            let due = match message_count {
                Some(count) => config.snapshots && snapshot_due(count, config.snapshot_threshold),
                None => false,
            };
            if due {
                SubscriberAction::Snapshot
            } else {
                SubscriberAction::Nothing
            }
        },
        SubscriberEvent::RouterChange(change) => match departed_peer(
            &change,
            config.component_path.as_slice(),
            config.consumer_uuid.as_slice(),
        ) {
            Some(uuid) => SubscriberAction::DeleteConsumer(uuid),
            None => SubscriberAction::Nothing,
        },
    }
}

} // verus!
