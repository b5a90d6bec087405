use vstd::prelude::*;
use crate::cache::{
    changed_ids, diff, entry_details, merge, merge_entries, CacheMap, ChangeCache, RecordView,
};
use crate::operation::{
    copy_string, data_views, entry_views, poll_views, string_views, EntryView, OperationData,
    OperationDataView, OperationEntry, PollEntry,
};

verus! {

/// Collections with more operations than this are not polled after the snapshot that shows it.
pub const MAX_COLLECTION_SIZE_FOR_POLLING: usize = 100;

/// Why a fetch from the remote collection failed.
pub enum CollectionError {
    NotFound(String),
    PermissionDenied(String),
    ValidationFailed(String),
    Transport(String),
}

/// What the watch hands to its consumer.
pub enum CollectionEvent {
    /// Every operation currently known: a complete snapshot, never a delta.
    UpdateOperationCollection(Vec<OperationData>),
    CollectionError(CollectionError),
}

/// Where the remote API is reached, and how often the collection is polled.
pub struct PlatformApiConfig {
    pub apollo_key: String,
    pub poll_interval_ms: u64,
    pub timeout_ms: u64,
}

/// The collection one watch follows.
pub struct CollectionSource {
    pub collection_id: String,
    pub platform_api_config: PlatformApiConfig,
}

#[derive(PartialEq, Eq, Structural)]
pub enum Phase {
    Starting,
    Watching,
    Stopped,
}

/// What the driver of a watch does next.
pub enum Next {
    /// Wait for the poll interval, then poll.
    Poll,
    /// Fetch the details of exactly these ids.
    FetchDetails(Vec<String>),
    /// Fetch nothing more; the stream ends.
    Stop,
}

/// The outcome of one decision: an event to send, if any, then what to do.
pub struct Step {
    pub event: Option<CollectionEvent>,
    pub next: Next,
}

pub open spec fn emits_snapshot(s: Step, snap: Seq<OperationDataView>) -> bool {
    match s.event {
        Some(CollectionEvent::UpdateOperationCollection(v)) => data_views(v@) == snap,
        _ => false,
    }
}

pub open spec fn fetches(s: Step, ids: Seq<Seq<char>>) -> bool {
    match s.next {
        Next::FetchDetails(v) => string_views(v@) == ids,
        _ => false,
    }
}

pub open spec fn full_details(es: Seq<EntryView>) -> Seq<OperationDataView> {
    es.map_values(|e: EntryView| e.data)
}

/// One watch of one collection: its phase and its cache, owned by the poll loop alone.
pub struct Watch {
    collection_id: String,
    phase: Phase,
    cache: ChangeCache,
}

impl Watch {
    pub closed spec fn phase_view(&self) -> Phase {
        self.phase
    }

    pub closed spec fn cache_map(&self) -> CacheMap {
        self.cache.view_map()
    }

    /// The details that a snapshot taken now carries.
    pub closed spec fn snapshot_view(&self) -> Seq<OperationDataView> {
        self.cache.snapshot_view()
    }

    pub closed spec fn id_view(&self) -> Seq<char> {
        self.collection_id@
    }

    pub closed spec fn well_formed(&self) -> bool {
        &&& self.cache.well_formed()
        &&& self.phase == Phase::Starting ==> self.cache.view_map() == Map::<Seq<char>, RecordView>::empty()
    }

    /// A watch that has fetched nothing yet.
    pub fn new(collection_id: String) -> (w: Watch)
        ensures
            w.well_formed(),
            w.phase_view() == Phase::Starting,
            w.cache_map() == Map::<Seq<char>, RecordView>::empty(),
            w.id_view() == collection_id@,
    {
        Watch { collection_id, phase: Phase::Starting, cache: ChangeCache::new() }
    }

    pub fn collection_id(&self) -> (r: &String)
        ensures
            r@ == self.id_view(),
    {
        &self.collection_id
    }

    pub fn is_stopped(&self) -> (r: bool)
        ensures
            r == (self.phase_view() == Phase::Stopped),
    {
        matches!(self.phase, Phase::Stopped)
    }

    /// Takes the result of the initial full fetch. A collection found is cached whole and sent
    /// as the first snapshot; polling follows unless it is over the size ceiling. Any error is
    /// sent once and ends the watch.
    pub fn on_full_fetch(&mut self, r: Result<Vec<OperationEntry>, CollectionError>) -> (s: Step)
        requires
            old(self).well_formed(),
            old(self).phase_view() == Phase::Starting,
        ensures
            final(self).well_formed(),
            final(self).id_view() == old(self).id_view(),
            match r {
                Ok(es) => {
                    &&& final(self).cache_map() == merge(Map::empty(), entry_views(es@))
                    &&& emits_snapshot(s, full_details(entry_views(es@)))
                    &&& es@.len() > MAX_COLLECTION_SIZE_FOR_POLLING ==> (s.next is Stop && final(self).phase_view() == Phase::Stopped)
                    &&& es@.len() <= MAX_COLLECTION_SIZE_FOR_POLLING ==> (s.next is Poll && final(self).phase_view() == Phase::Watching)
                },
                Err(e) => {
                    &&& s.event == Some(CollectionEvent::CollectionError(e))
                    &&& s.next is Stop
                    &&& final(self).phase_view() == Phase::Stopped
                    &&& final(self).cache_map() == old(self).cache_map()
                },
            },
    {
        match r {
            Ok(entries) => {
                merge_entries(&mut self.cache, &entries);
                let details = entry_details(&entries);
                if entries.len() > MAX_COLLECTION_SIZE_FOR_POLLING {
                    self.phase = Phase::Stopped;
                    Step { event: Some(CollectionEvent::UpdateOperationCollection(details)), next: Next::Stop }
                } else {
                    self.phase = Phase::Watching;
                    Step { event: Some(CollectionEvent::UpdateOperationCollection(details)), next: Next::Poll }
                }
            },
            Err(e) => {
                self.phase = Phase::Stopped;
                Step { event: Some(CollectionEvent::CollectionError(e)), next: Next::Stop }
            },
        }
    }

    /// Takes the result of a lightweight poll. Stamps are recorded at once; when none changed
    /// nothing is sent, else the changed ids are fetched next. An error is sent once and the
    /// watch polls again at the next interval.
    pub fn on_poll(&mut self, r: Result<Vec<PollEntry>, CollectionError>) -> (s: Step)
        requires
            old(self).well_formed(),
            old(self).phase_view() == Phase::Watching,
        ensures
            final(self).well_formed(),
            final(self).id_view() == old(self).id_view(),
            final(self).phase_view() == Phase::Watching,
            match r {
                Ok(p) => {
                    let d = diff(old(self).cache_map(), poll_views(p@));
                    &&& final(self).cache_map() == d.0
                    &&& s.event is None
                    &&& d.1.len() == 0 ==> s.next is Poll
                    &&& d.1.len() > 0 ==> fetches(s, d.1)
                },
                Err(e) => {
                    &&& s.event == Some(CollectionEvent::CollectionError(e))
                    &&& s.next is Poll
                    &&& final(self).cache_map() == old(self).cache_map()
                },
            },
    {
        match r {
            Ok(poll) => {
                let ids = changed_ids(&mut self.cache, &poll);
                if ids.len() == 0 {
                    Step { event: None, next: Next::Poll }
                } else {
                    Step { event: None, next: Next::FetchDetails(ids) }
                }
            },
            Err(e) => Step { event: Some(CollectionEvent::CollectionError(e)), next: Next::Poll },
        }
    }

    /// Takes the details fetched for the changed ids. They are stored and a complete snapshot
    /// of the cache is sent; polling stops if that snapshot is over the size ceiling. An error
    /// is sent once and the watch polls again at the next interval.
    pub fn on_details(&mut self, r: Result<Vec<OperationEntry>, CollectionError>) -> (s: Step)
        requires
            old(self).well_formed(),
            old(self).phase_view() == Phase::Watching,
        ensures
            final(self).well_formed(),
            final(self).id_view() == old(self).id_view(),
            match r {
                Ok(es) => {
                    &&& final(self).cache_map() == merge(old(self).cache_map(), entry_views(es@))
                    &&& emits_snapshot(s, final(self).snapshot_view())
                    &&& final(self).snapshot_view().len() > MAX_COLLECTION_SIZE_FOR_POLLING ==> (s.next is Stop && final(self).phase_view() == Phase::Stopped)
                    &&& final(self).snapshot_view().len() <= MAX_COLLECTION_SIZE_FOR_POLLING ==> (s.next is Poll && final(self).phase_view() == Phase::Watching)
                },
                Err(e) => {
                    &&& s.event == Some(CollectionEvent::CollectionError(e))
                    &&& s.next is Poll
                    &&& final(self).phase_view() == Phase::Watching
                    &&& final(self).cache_map() == old(self).cache_map()
                },
            },
    {
        match r {
            Ok(entries) => {
                merge_entries(&mut self.cache, &entries);
                let snapshot = self.cache.snapshot();
                if snapshot.len() > MAX_COLLECTION_SIZE_FOR_POLLING {
                    self.phase = Phase::Stopped;
                    Step { event: Some(CollectionEvent::UpdateOperationCollection(snapshot)), next: Next::Stop }
                } else {
                    Step { event: Some(CollectionEvent::UpdateOperationCollection(snapshot)), next: Next::Poll }
                }
            },
            Err(e) => Step { event: Some(CollectionEvent::CollectionError(e)), next: Next::Poll },
        }
    }

    /// The consumer is gone: the watch ends without another event.
    pub fn on_consumer_gone(&mut self)
        requires
            old(self).well_formed(),
        ensures
            final(self).well_formed(),
            final(self).phase_view() == Phase::Stopped,
            final(self).cache_map() == old(self).cache_map(),
            final(self).id_view() == old(self).id_view(),
    {
        self.phase = Phase::Stopped;
    }
}

impl CollectionSource {
    /// Starts a watch of this collection, with an empty cache.
    pub fn watch(&self) -> (w: Watch)
        ensures
            w.well_formed(),
            w.phase_view() == Phase::Starting,
            w.cache_map() == Map::<Seq<char>, RecordView>::empty(),
            w.id_view() == self.collection_id@,
    {
        Watch::new(copy_string(&self.collection_id))
    }
}

} // verus!
