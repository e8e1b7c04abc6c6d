//! The data of a room's event cache: events, gaps, and the chunks that link them.

use vstd::prelude::*;

verus! {

/// The unsigned part of an event, as far as it is read.
#[derive(Debug)]
pub struct Unsigned {
    /// What redacted the event, as JSON text, where something did.
    pub redacted_because: Option<String>,
}

impl Clone for Unsigned {
    fn clone(&self) -> (r: Self)
        ensures
            r == *self,
    {
        Unsigned { redacted_because: self.redacted_because.clone() }
    }
}

/// A timeline event as the cache holds it.
#[derive(Debug)]
pub struct Event {
    /// The identifier of the event, where it has one.
    pub event_id: Option<String>,
    /// The event as JSON text.
    pub json: String,
    /// The unsigned part of the event, where it has one that can be read.
    pub unsigned: Option<Unsigned>,
}

impl Event {
    /// The identifier of the event as characters, where it has one.
    pub open spec fn id(self) -> Option<Seq<char>> {
        match self.event_id {
            Some(id) => Some(id@),
            None => None,
        }
    }
}

impl Clone for Event {
    fn clone(&self) -> (r: Self)
        ensures
            r == *self,
    {
        let unsigned = match &self.unsigned {
            Some(unsigned) => Some(unsigned.clone()),
            None => None,
        };
        Event { event_id: self.event_id.clone(), json: self.json.clone(), unsigned }
    }
}

/// A hole in the known history, with the token from which it can be filled.
#[derive(Debug)]
pub struct Gap {
    /// The pagination token.
    pub token: String,
}

/// What one chunk holds.
#[derive(Debug)]
pub enum ChunkContent {
    /// The chunk stands for unknown history.
    Gap(Gap),
    /// The chunk holds contiguous events, oldest first.
    Items(Vec<Event>),
}

/// One chunk of the linked list of chunks.
#[derive(Debug)]
pub struct Chunk {
    /// The identifier of the chunk.
    pub identifier: u64,
    /// The identifier of the chunk before it, where there is one.
    pub previous: Option<u64>,
    /// What the chunk holds.
    pub content: ChunkContent,
}

/// The part of a room's cache that pagination reads.
#[derive(Debug)]
pub struct RoomEventCacheState {
    /// The chunks in memory, oldest first.
    pub chunks: Vec<Chunk>,
    /// The identity of the current set of gaps.
    pub gap_snapshot_id: u64,
    /// Counts the changes to where the gaps stand.
    pub gap_topology_generation: u64,
    /// The newest event of the room, where one is known.
    pub newest_event_id: Option<String>,
    /// Whether a pagination token from sync has been waited for once.
    pub waited_for_initial_prev_token: bool,
}

/// What the deduplicator found in a page of events.
#[derive(Debug)]
pub struct DeduplicationOutcome {
    /// The events of the page, each of them once.
    pub all_events: Vec<Event>,
    /// Events of the page that stand in a chunk in memory.
    pub in_memory_duplicated_event_ids: Vec<String>,
    /// Events of the page that stand in the store only.
    pub in_store_duplicated_event_ids: Vec<String>,
    /// The page has events, and all of them are duplicates.
    pub non_empty_all_duplicates: bool,
}

/// One page of a room's messages, newest first.
#[derive(Debug)]
pub struct Messages {
    /// The events of the page, newest first.
    pub chunk: Vec<Event>,
    /// The token from which the history before this page can be requested.
    pub end: Option<String>,
}

/// Why events reached the timeline.
#[derive(Clone, Copy, Debug, PartialEq, Eq, Structural)]
pub enum EventsOrigin {
    /// They were loaded from the store.
    Cache,
    /// They came with a page of a back-pagination.
    Pagination,
    /// They repair a gap.
    GapRepair {
        /// The generation of the actor that asked for the repair.
        actor_generation: u64,
        /// The generation of the repair.
        repair_generation: u64,
        /// The number of the batch, counted from one.
        projection_batch: u64,
    },
}

/// An error of the event cache.
#[derive(Debug)]
pub enum EventCacheError {
    /// The linked chunk cannot be what the caller claims.
    InvalidLinkedChunkMetadata {
        /// What is wrong.
        details: String,
    },
    /// The server refused a page, or could not be reached.
    PaginationError {
        /// The reason given.
        reason: String,
    },
    /// The store failed.
    Storage {
        /// The reason given.
        reason: String,
    },
}

impl EventCacheError {
    /// The text that describes the error.
    pub open spec fn text(self) -> Seq<char> {
        match self {
            EventCacheError::InvalidLinkedChunkMetadata { details } => details@,
            EventCacheError::PaginationError { reason } => reason@,
            EventCacheError::Storage { reason } => reason@,
        }
    }

    /// Describes the error.
    pub fn message(&self) -> (r: String)
        ensures
            r@ == self.text(),
    {
        match self {
            EventCacheError::InvalidLinkedChunkMetadata { details } => details.clone(),
            EventCacheError::PaginationError { reason } => reason.clone(),
            EventCacheError::Storage { reason } => reason.clone(),
        }
    }
}

/// The identifiers of those events that have one, in order.
pub open spec fn event_ids(events: Seq<Event>) -> Seq<Seq<char>> {
    events.filter_map(|e: Event| e.id())
}

/// The events of a list in the opposite order.
pub fn reversed(events: &[Event]) -> (r: Vec<Event>)
    ensures
        r@ == events@.reverse(),
{
    let mut r: Vec<Event> = Vec::new();
    let mut left: usize = events.len();
    while left > 0
        invariant
            left <= events@.len(),
            r@.len() == events@.len() - left,
            forall|i: int| 0 <= i < r@.len() ==> r@[i] == events@[events@.len() - 1 - i],
        decreases left,
    {
        left -= 1;
        r.push(events[left].clone());
    }
    assert(r@ =~= events@.reverse());
    r
}

/// Tells whether one of the events has the given identifier.
pub fn contains_event(events: &[Event], id: &str) -> (r: bool)
    ensures
        r == exists|i: int| 0 <= i < events@.len() && #[trigger] events@[i].id() == Some(id@),
{
    let wanted = id.to_owned();
    let mut i: usize = 0;
    while i < events.len()
        invariant
            i <= events@.len(),
            wanted@ == id@,
            forall|j: int| 0 <= j < i ==> #[trigger] events@[j].id() != Some(id@),
        decreases events@.len() - i,
    {
        if let Some(event_id) = &events[i].event_id {
            if *event_id == wanted {
                assert(events@[i as int].id() == Some(id@));
                return true;
            }
        }
        i += 1;
    }
    false
}

/// The identifiers of a list of events grow by that of an event put behind it, where this has one.
pub proof fn identifiers_grow_with_the_events(events: Seq<Event>, event: Event)
    ensures
        event_ids(Seq::empty()).len() == 0,
        event.event_id matches Some(id) ==> event_ids(events.push(event)) == event_ids(events).push(
            id@,
        ),
        event.event_id is None ==> event_ids(events.push(event)) == event_ids(events),
        event.id() is Some <==> event.event_id is Some,
        event.event_id is Some ==> event.id()->0 == event.event_id->0@,
{
    let key = |e: Event| e.id();
    let more = events.push(event);
    more.lemma_filter_map_take_succ(key, events.len() as int);
    assert(more.take(events.len() as int) =~= events);
    assert(more.take(more.len() as int) =~= more);
}

/// An error is described by the text it was given.
pub proof fn error_is_described_by_its_text(error: EventCacheError)
    ensures
        error matches EventCacheError::InvalidLinkedChunkMetadata { details } ==> error.text()
            == details@,
        error matches EventCacheError::PaginationError { reason } ==> error.text() == reason@,
        error matches EventCacheError::Storage { reason } ==> error.text() == reason@,
{
}

} // verus!
