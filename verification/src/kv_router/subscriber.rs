//! Keeping the index in step with the event stream, and its snapshots.
use crate::chance::random_between;
use crate::kv_router::protocols::{
    ExternalSequenceBlockHash, KvCacheEventData, KvCacheStoredBlockData, WorkerId,
};
use crate::kv_router::radix_tree::RouterEvent;
use crate::seqs::{lemma_push_contains, lemma_take_next};
use crate::text::{
    contains_text, decimal, decimal_text, holds_text, join, replace_char, replaced,
};
use crate::urls::{parse_url, url_parts};
use vstd::prelude::*;

verus! {

/// The pause between two reads of a snapshot, in milliseconds.
pub const SNAPSHOT_STABILITY_DELAY_MS: u64 = 100;

/// How often a snapshot is read again at most.
pub const MAX_SNAPSHOT_STABILITY_ATTEMPTS: usize = 10;

/// The time between two looks at the stream, in milliseconds.
pub const CHECK_INTERVAL_BASE_MS: i64 = 1000;

/// By how much that time is varied at most, in milliseconds.
pub const CHECK_INTERVAL_JITTER_MS: i64 = 100;

/// The pause after the stream could not be read, in milliseconds.
pub const DEQUEUE_RETRY_MS: u64 = 100;

/// The subject of cache events.
pub const KV_EVENT_SUBJECT: &'static str = "kv_events";

/// The bucket that snapshots are kept in.
pub const RADIX_STATE_BUCKET: &'static str = "radix-bucket";

/// The name of the snapshot.
pub const RADIX_STATE_FILE: &'static str = "radix-state";

/// A name without underscores, for a stream or a bucket.
pub fn dashed_name(slug: &str) -> (name: String)
    ensures
        name@ == replaced(slug@, '_', '-'),
{
    replace_char(slug, '_', '-')
}

/// What the stream of events below a subject is named after.
pub fn stream_title(subject: &str) -> (title: String)
    ensures
        title@ == subject@ + "."@ + KV_EVENT_SUBJECT@,
{
    let title = join(subject, ".");
    join(title.as_str(), KV_EVENT_SUBJECT)
}

/// What the bucket of snapshots below a subject is named after.
pub fn bucket_title(subject: &str) -> (title: String)
    ensures
        title@ == subject@ + "-"@ + RADIX_STATE_BUCKET@,
{
    let title = join(subject, "-");
    join(title.as_str(), RADIX_STATE_BUCKET)
}

/// Where the snapshot of a bucket is.
pub open spec fn snapshot_location(address: Seq<char>, bucket: Seq<char>) -> Seq<char> {
    "nats://"@ + address + "/"@ + bucket + "/"@ + RADIX_STATE_FILE@
}

/// The URL of the snapshot in a bucket, if the address and the bucket make one up.
pub fn snapshot_url(address: &str, bucket: &str) -> (url: Option<String>)
    ensures
        url matches Some(url) ==> url@ == snapshot_location(address@, bucket@),
        url is Some <==> url_parts(snapshot_location(address@, bucket@)) is Ok,
{
    let mut url = String::from_str("nats://");
    url.append(address);
    url.append("/");
    url.append(bucket);
    url.append("/");
    url.append(RADIX_STATE_FILE);
    match parse_url(url.as_str()) {
        Ok(_) => Some(url),
        Err(_) => None,
    }
}

/// How long to wait between two looks at the stream, varied by `jitter_ms`.
pub fn check_interval_ms(jitter_ms: i64) -> (interval: u64)
    requires
        -CHECK_INTERVAL_JITTER_MS <= jitter_ms <= CHECK_INTERVAL_JITTER_MS,
    ensures
        interval == CHECK_INTERVAL_BASE_MS + jitter_ms,
{
    (CHECK_INTERVAL_BASE_MS + jitter_ms) as u64
}

/// Picks how long to wait between two looks at the stream, so that routers do not look all at once.
pub fn varied_check_interval_ms() -> (interval: u64)
    ensures
        CHECK_INTERVAL_BASE_MS - CHECK_INTERVAL_JITTER_MS <= interval <= CHECK_INTERVAL_BASE_MS
            + CHECK_INTERVAL_JITTER_MS,
{
    check_interval_ms(random_between(-CHECK_INTERVAL_JITTER_MS, CHECK_INTERVAL_JITTER_MS))
}

/// What a router does first about what was kept of an earlier one.
#[derive(Clone, Copy, Debug, PartialEq, Eq, Structural)]
pub enum StartAction {
    /// Read the snapshot until two reads agree.
    ReadSnapshot,
    /// Delete the bucket that snapshots are kept in.
    DeleteBucket,
}

/// Decides whether to go on from a snapshot or to start over.
pub fn start_action(reset_states: bool) -> (action: StartAction)
    ensures
        action == (if reset_states {
            StartAction::DeleteBucket
        } else {
            StartAction::ReadSnapshot
        }),
{
    if reset_states {
        StartAction::DeleteBucket
    } else {
        StartAction::ReadSnapshot
    }
}

/// Whether two events say the same.
pub open spec fn same_event(a: RouterEvent, b: RouterEvent) -> bool {
    &&& a.worker_id == b.worker_id
    &&& a.event.event_id == b.event.event_id
    &&& a.event.dp_rank == b.event.dp_rank
    &&& match (a.event.data, b.event.data) {
        (KvCacheEventData::Stored(a), KvCacheEventData::Stored(b)) => a.parent_hash
            == b.parent_hash && a.blocks@ == b.blocks@,
        (KvCacheEventData::Removed(a), KvCacheEventData::Removed(b)) => a.block_hashes@
            == b.block_hashes@,
        (KvCacheEventData::Cleared, KvCacheEventData::Cleared) => true,
        _ => false,
    }
}

/// Whether two runs of events say the same.
pub open spec fn same_events(a: Seq<RouterEvent>, b: Seq<RouterEvent>) -> bool {
    a.len() == b.len() && forall|i: int| 0 <= i < a.len() ==> same_event(#[trigger] a[i], b[i])
}

fn are_same_blocks(a: &Vec<KvCacheStoredBlockData>, b: &Vec<KvCacheStoredBlockData>) -> (same: bool)
    ensures
        same == (a@ == b@),
{
    if a.len() != b.len() {
        return false;
    }
    let mut index: usize = 0;
    while index < a.len()
        invariant
            index <= a@.len() == b@.len(),
            forall|i: int| 0 <= i < index ==> #[trigger] a@[i] == b@[i],
        decreases a@.len() - index,
    {
        if a[index].block_hash.0 != b[index].block_hash.0 || a[index].tokens_hash.0
            != b[index].tokens_hash.0 {
            return false;
        }
        index += 1;
    }
    assert(a@ =~= b@);
    true
}

fn are_same_hashes(
    a: &Vec<ExternalSequenceBlockHash>,
    b: &Vec<ExternalSequenceBlockHash>,
) -> (same: bool)
    ensures
        same == (a@ == b@),
{
    if a.len() != b.len() {
        return false;
    }
    let mut index: usize = 0;
    while index < a.len()
        invariant
            index <= a@.len() == b@.len(),
            forall|i: int| 0 <= i < index ==> #[trigger] a@[i] == b@[i],
        decreases a@.len() - index,
    {
        if a[index].0 != b[index].0 {
            return false;
        }
        index += 1;
    }
    assert(a@ =~= b@);
    true
}

fn is_same_event(a: &RouterEvent, b: &RouterEvent) -> (same: bool)
    ensures
        same == same_event(*a, *b),
{
    if a.worker_id != b.worker_id || a.event.event_id != b.event.event_id || a.event.dp_rank
        != b.event.dp_rank {
        return false;
    }
    match (&a.event.data, &b.event.data) {
        (KvCacheEventData::Stored(first), KvCacheEventData::Stored(second)) => {
            let same_parent = match (first.parent_hash, second.parent_hash) {
                (Some(first), Some(second)) => first.0 == second.0,
                (None, None) => true,
                _ => false,
            };
            same_parent && are_same_blocks(&first.blocks, &second.blocks)
        },
        (KvCacheEventData::Removed(first), KvCacheEventData::Removed(second)) => {
            are_same_hashes(&first.block_hashes, &second.block_hashes)
        },
        (KvCacheEventData::Cleared, KvCacheEventData::Cleared) => true,
        _ => false,
    }
}

fn are_same_events(a: &Vec<RouterEvent>, b: &Vec<RouterEvent>) -> (same: bool)
    ensures
        same == same_events(a@, b@),
{
    if a.len() != b.len() {
        return false;
    }
    let mut index: usize = 0;
    while index < a.len()
        invariant
            index <= a@.len() == b@.len(),
            forall|i: int| 0 <= i < index ==> same_event(#[trigger] a@[i], b@[i]),
        decreases a@.len() - index,
    {
        if !is_same_event(&a[index], &b[index]) {
            return false;
        }
        index += 1;
    }
    true
}

/// Reading a snapshot until two reads in a row agree.
pub struct SnapshotReader {
    events: Vec<RouterEvent>,
    attempts: usize,
    settled: bool,
}

impl SnapshotReader {
    /// The latest events.
    pub closed spec fn events(&self) -> Seq<RouterEvent> {
        self.events@
    }

    /// How often the snapshot was read again.
    pub closed spec fn attempts(&self) -> usize {
        self.attempts
    }

    /// Nothing more is read.
    pub closed spec fn settled(&self) -> bool {
        self.settled
    }

    /// Starts with what the first read gave.
    pub fn new(first: Vec<RouterEvent>) -> (reader: Self)
        ensures
            reader.events() == first@,
            reader.attempts() == 0,
            !reader.settled(),
    {
        SnapshotReader { events: first, attempts: 0, settled: false }
    }

    /// Takes a further read. A read that failed settles for the events before it, one that agrees
    /// with them settles, and so does the last one allowed.
    pub fn on_read(&mut self, read: Option<Vec<RouterEvent>>)
        requires
            !old(self).settled(),
            old(self).attempts() < MAX_SNAPSHOT_STABILITY_ATTEMPTS,
        ensures
            final(self).attempts() == old(self).attempts() + 1,
            final(self).events() == (match read {
                Some(events) => events@,
                None => old(self).events(),
            }),
            final(self).settled() == (match read {
                Some(events) => same_events(old(self).events(), events@) || old(self).attempts() + 1
                    == MAX_SNAPSHOT_STABILITY_ATTEMPTS,
                None => true,
            }),
    {
        self.attempts = self.attempts + 1;
        match read {
            None => {
                self.settled = true;
            },
            Some(events) => {
                self.settled = are_same_events(&self.events, &events) || self.attempts
                    == MAX_SNAPSHOT_STABILITY_ATTEMPTS;
                self.events = events;
            },
        }
    }

    /// Whether nothing more is read.
    pub fn is_settled(&self) -> (settled: bool)
        ensures
            settled == self.settled(),
    {
        self.settled
    }

    /// The events to start from.
    pub fn into_events(self) -> (events: Vec<RouterEvent>)
        ensures
            events@ == self.events(),
    {
        self.events
    }
}

/// The workers that the index knows although they are gone, in the order in which it knows them.
pub fn stale_workers(known: &[WorkerId], current: &[WorkerId]) -> (stale: Vec<WorkerId>)
    ensures
        stale@ == known@.filter(|worker: WorkerId| !current@.contains(worker)),
{
    let ghost gone = |worker: WorkerId| !current@.contains(worker);
    let mut stale: Vec<WorkerId> = Vec::new();
    let mut index: usize = 0;
    proof {
        reveal(Seq::filter);
        assert(known@.take(0).filter(gone) =~= Seq::empty());
    }
    while index < known.len()
        invariant
            index <= known@.len(),
            gone == (|worker: WorkerId| !current@.contains(worker)),
            stale@ == known@.take(index as int).filter(gone),
        decreases known@.len() - index,
    {
        let worker: WorkerId = known[index];
        let found = contains_worker(current, worker);
        proof {
            reveal(Seq::filter);
            lemma_take_next(known@, index as int);
        }
        if !found {
            stale.push(worker);
        }
        index += 1;
    }
    assert(known@.take(index as int) =~= known@);
    stale
}

fn contains_worker(workers: &[WorkerId], worker: WorkerId) -> (found: bool)
    ensures
        found == workers@.contains(worker),
{
    let mut index: usize = 0;
    while index < workers.len()
        invariant
            index <= workers@.len(),
            forall|i: int| 0 <= i < index ==> #[trigger] workers@[i] != worker,
        decreases workers@.len() - index,
    {
        if workers[index] == worker {
            return true;
        }
        index += 1;
    }
    false
}

/// Whether a consumer belongs to no router: it is not this router's own, and no active router
/// has its name.
pub open spec fn is_orphaned(consumer: String, own: Seq<char>, active: Seq<String>) -> bool {
    consumer@ != own && !holds_text(active, consumer@)
}

/// The consumers that belong to no router, in their order.
pub fn orphaned_consumers(consumers: Vec<String>, own: &String, active: &[String]) -> (orphaned:
    Vec<String>)
    ensures
        orphaned@.map_values(|consumer: String| consumer@) == consumers@.filter(
            |consumer: String| is_orphaned(consumer, own@, active@),
        ).map_values(|consumer: String| consumer@),
{
    let ghost alone = |consumer: String| is_orphaned(consumer, own@, active@);
    let ghost text_of = |consumer: String| consumer@;
    let mut orphaned: Vec<String> = Vec::new();
    let mut index: usize = 0;
    proof {
        reveal(Seq::filter);
        assert(consumers@.take(0).filter(alone) =~= Seq::empty());
        assert(orphaned@.map_values(text_of) =~= consumers@.take(0).filter(alone).map_values(
            text_of,
        ));
    }
    while index < consumers.len()
        invariant
            index <= consumers@.len(),
            alone == (|consumer: String| is_orphaned(consumer, own@, active@)),
            text_of == (|consumer: String| consumer@),
            orphaned@.map_values(text_of) == consumers@.take(index as int).filter(
                alone,
            ).map_values(text_of),
        decreases consumers@.len() - index,
    {
        let consumer = &consumers[index];
        let ghost earlier = orphaned@;
        let ghost before = consumers@.take(index as int).filter(alone);
        proof {
            reveal(Seq::filter);
            lemma_take_next(consumers@, index as int);
        }
        if *consumer != *own && !contains_text(active, consumer.as_str()) {
            orphaned.push(consumer.clone());
            proof {
                let after = consumers@.take(index + 1).filter(alone);
                assert(after == before.push(consumers@[index as int]));
                assert(orphaned@.map_values(text_of) =~= earlier.map_values(text_of).push(
                    consumer@,
                ));
                assert(after.map_values(text_of) =~= before.map_values(text_of).push(consumer@));
            }
        }
        index += 1;
    }
    assert(consumers@.take(index as int) =~= consumers@);
    orphaned
}

/// A change among the instances of an endpoint.
#[derive(Clone, Copy, Debug, PartialEq, Eq, Structural)]
pub enum InstanceChange {
    Added(u64),
    Removed(u64),
}

/// Something that happened to the background task.
#[derive(Clone, Debug)]
pub enum BackgroundEvent {
    Cancelled,
    /// A worker came or went; there is no value where the message could not be read.
    Worker(Option<InstanceChange>),
    /// An event was taken from the stream; there is no value where it could not be read.
    Dequeued(Option<RouterEvent>),
    /// The stream gave nothing in time.
    DequeueTimeout,
    DequeueFailed,
    /// It is time to look at the stream, which holds so many messages where that is known.
    Tick(Option<u64>),
    /// A router came or went; there is no value where the message could not be read.
    Router(Option<InstanceChange>),
}

/// What the background task does next.
#[derive(Clone, Debug)]
pub enum BackgroundAction {
    Stop,
    RemoveWorker(WorkerId),
    /// Hand an event to the index, and stop if it does not take it.
    Forward(RouterEvent),
    WaitMs(u64),
    PurgeAndSnapshot,
    /// Delete the consumer of a router that is gone.
    DeleteConsumer(String),
    Nothing,
}

/// The number of messages above which the stream is purged.
pub open spec fn purge_limit(snapshot_threshold: Option<u32>) -> u64 {
    match snapshot_threshold {
        Some(threshold) => threshold as u64,
        None => u32::MAX as u64,
    }
}

/// Decides what the background task does about an event. Snapshots are only taken where the
/// index can be asked for its workers and its dump and a threshold is set.
pub fn background_action(
    event: BackgroundEvent,
    can_get_workers: bool,
    can_dump: bool,
    snapshot_threshold: Option<u32>,
) -> (action: BackgroundAction)
    ensures
        match event {
            BackgroundEvent::Cancelled => action is Stop,
            BackgroundEvent::Worker(Some(InstanceChange::Removed(worker))) => action
                == BackgroundAction::RemoveWorker(worker),
            BackgroundEvent::Dequeued(Some(event)) => action == BackgroundAction::Forward(event),
            BackgroundEvent::DequeueFailed => action == BackgroundAction::WaitMs(DEQUEUE_RETRY_MS),
            BackgroundEvent::Tick(Some(messages)) => if can_get_workers && can_dump
                && snapshot_threshold is Some && messages > purge_limit(snapshot_threshold) {
                action is PurgeAndSnapshot
            } else {
                action is Nothing
            },
            BackgroundEvent::Router(Some(InstanceChange::Removed(router))) => (action matches
                BackgroundAction::DeleteConsumer(consumer) && consumer@ == decimal_text(
                router as nat,
            )),
            _ => action is Nothing,
        },
{
    match event {
        BackgroundEvent::Cancelled => BackgroundAction::Stop,
        BackgroundEvent::Worker(Some(InstanceChange::Removed(worker))) => {
            BackgroundAction::RemoveWorker(worker)
        },
        BackgroundEvent::Worker(_) => BackgroundAction::Nothing,
        BackgroundEvent::Dequeued(Some(event)) => BackgroundAction::Forward(event),
        BackgroundEvent::Dequeued(None) => BackgroundAction::Nothing,
        BackgroundEvent::DequeueTimeout => BackgroundAction::Nothing,
        BackgroundEvent::DequeueFailed => BackgroundAction::WaitMs(DEQUEUE_RETRY_MS),
        BackgroundEvent::Tick(None) => BackgroundAction::Nothing,
        BackgroundEvent::Tick(Some(messages)) => match snapshot_threshold {
            Some(threshold) => if can_get_workers && can_dump && messages > threshold as u64 {
                BackgroundAction::PurgeAndSnapshot
            } else {
                BackgroundAction::Nothing
            },
            None => BackgroundAction::Nothing,
        },
        BackgroundEvent::Router(Some(InstanceChange::Removed(router))) => {
            BackgroundAction::DeleteConsumer(decimal(router))
        },
        BackgroundEvent::Router(_) => BackgroundAction::Nothing,
    }
}

/// How far purging the stream and taking a snapshot has come.
#[derive(Clone, Debug)]
pub enum SnapshotEvent {
    /// It begins.
    Started,
    /// The index told which workers it knows; there is no value where it did not.
    Workers(Option<Vec<WorkerId>>),
    /// What the router has dealt with was purged from the stream, or could not be.
    Purged(bool),
    /// The index told what it holds; there is no value where it did not.
    Dumped(Option<Vec<RouterEvent>>),
}

/// What comes next in purging the stream and taking a snapshot.
#[derive(Clone, Debug)]
pub enum SnapshotAction {
    /// Ask the index which workers it knows.
    AskWorkers,
    /// Have the index forget these workers, and purge the stream.
    ForgetAndPurge(Vec<WorkerId>),
    /// Ask the index what it holds.
    AskDump,
    /// Keep what the index holds at this place.
    Upload { url: String, events: Vec<RouterEvent> },
    /// There is no place to keep it at.
    NoPlace,
    /// Give up for now.
    Fail,
}

/// Whether an action is right for how far it has come. The stream is purged before the index is
/// asked what it holds, so that nothing in the snapshot is read from the stream again.
pub open spec fn is_next_in_snapshot(
    event: SnapshotEvent,
    current: Seq<WorkerId>,
    location: Seq<char>,
    action: SnapshotAction,
) -> bool {
    match event {
        SnapshotEvent::Started => action is AskWorkers,
        SnapshotEvent::Workers(None) => action matches SnapshotAction::ForgetAndPurge(stale)
            && stale@.len() == 0,
        SnapshotEvent::Workers(Some(known)) => action matches SnapshotAction::ForgetAndPurge(stale)
            && stale@ == known@.filter(|worker: WorkerId| !current.contains(worker)),
        SnapshotEvent::Purged(purged) => if purged {
            action is AskDump
        } else {
            action is Fail
        },
        SnapshotEvent::Dumped(None) => action is Fail,
        SnapshotEvent::Dumped(Some(events)) => if url_parts(location) is Ok {
            action matches SnapshotAction::Upload { url, events: kept } && url@ == location && kept
                == events
        } else {
            action is NoPlace
        },
    }
}

/// Decides what comes next in purging the stream and taking a snapshot. `current` lists the workers
/// that are there.
pub fn next_in_snapshot(
    event: SnapshotEvent,
    current: &[WorkerId],
    address: &str,
    bucket: &str,
) -> (action: SnapshotAction)
    ensures
        is_next_in_snapshot(event, current@, snapshot_location(address@, bucket@), action),
{
    match event {
        SnapshotEvent::Started => SnapshotAction::AskWorkers,
        SnapshotEvent::Workers(None) => SnapshotAction::ForgetAndPurge(Vec::new()),
        SnapshotEvent::Workers(Some(known)) => {
            SnapshotAction::ForgetAndPurge(stale_workers(known.as_slice(), current))
        },
        SnapshotEvent::Purged(purged) => if purged {
            SnapshotAction::AskDump
        } else {
            SnapshotAction::Fail
        },
        SnapshotEvent::Dumped(None) => SnapshotAction::Fail,
        SnapshotEvent::Dumped(Some(events)) => match snapshot_url(address, bucket) {
            Some(url) => SnapshotAction::Upload { url, events },
            None => SnapshotAction::NoPlace,
        },
    }
}

/// No current worker is ever taken for stale, and every known worker is either.
pub proof fn law_stale_workers_are_gone(known: Seq<WorkerId>, current: Seq<WorkerId>, worker: WorkerId)
    ensures
        known.filter(|worker: WorkerId| !current.contains(worker)).contains(worker)
            <==> known.contains(worker) && !current.contains(worker),
    decreases known.len(),
{
    reveal(Seq::filter);
    let gone = |worker: WorkerId| !current.contains(worker);
    if known.len() > 0 {
        let shorter = known.drop_last();
        law_stale_workers_are_gone(shorter, current, worker);
        assert(shorter.push(known.last()) =~= known);
        lemma_push_contains(shorter, known.last(), worker);
        lemma_push_contains(shorter.filter(gone), known.last(), worker);
    }
}

} // verus!
