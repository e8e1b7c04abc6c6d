//! Paginating a room's event cache backwards: from memory, from the store, and from the network.

use vstd::prelude::*;

use crate::room_cache::{
    contains_event, reversed, Chunk, ChunkContent, DeduplicationOutcome, Event, EventCacheError,
    EventsOrigin, Gap, Messages, RoomEventCacheState,
};
use crate::text::{opt_text, same_text};
use crate::vector_diff::VectorDiff;

verus! {

/// The status of a pagination as the cache shares it between those who paginate.
#[derive(Clone, Copy, Debug, PartialEq, Eq, Structural)]
pub enum SharedPaginationStatus {
    /// No pagination runs.
    Idle {
        /// Whether the start of the timeline has been reached.
        hit_timeline_start: bool,
    },
    /// A pagination runs.
    Paginating,
}

/// The status of a pagination.
#[derive(Clone, Copy, Debug, PartialEq, Eq, Structural)]
pub enum PaginationStatus {
    /// No pagination runs.
    Idle {
        /// Whether the start of the timeline has been reached.
        hit_timeline_start: bool,
    },
    /// A pagination runs.
    Paginating,
}

/// The status that others see of a shared status.
pub open spec fn public_status(from: SharedPaginationStatus) -> PaginationStatus {
    match from {
        SharedPaginationStatus::Idle { hit_timeline_start } => PaginationStatus::Idle {
            hit_timeline_start,
        },
        SharedPaginationStatus::Paginating => PaginationStatus::Paginating,
    }
}

/// A shared status that can be watched. It holds an `eyeball::SharedObservable`, whose lock type
/// is private to that crate.
#[verifier::external_body]
#[derive(Debug)]
pub struct StatusObservable {
    inner: eyeball::SharedObservable<SharedPaginationStatus>,
}

/// A watcher of a shared status. It holds an `eyeball::Subscriber`, whose lock type is private to
/// that crate.
#[verifier::external_body]
#[derive(Debug)]
pub struct StatusSubscriber {
    inner: eyeball::Subscriber<SharedPaginationStatus>,
}

/// The status that an observable was made with.
pub uninterp spec fn first_status(observable: StatusObservable) -> SharedPaginationStatus;

/// Whether an observable holds a status at some time.
pub uninterp spec fn holds_at_some_time(
    observable: StatusObservable,
    status: SharedPaginationStatus,
) -> bool;

/// The observable that a subscriber watches.
pub uninterp spec fn watched_observable(subscriber: StatusSubscriber) -> StatusObservable;

impl StatusObservable {
    /// `eyeball::SharedObservable::new` makes an observable with the given first value. What it
    /// holds later is up to those who share it, so nothing is claimed of that.
    #[verifier::external_body]
    fn new(value: SharedPaginationStatus) -> (r: Self)
        ensures
            first_status(r) == value,
            holds_at_some_time(r, value),
    {
        StatusObservable { inner: eyeball::SharedObservable::new(value) }
    }

    /// `eyeball::SharedObservable::subscribe` gives a subscriber that watches this observable.
    /// Nothing is claimed of the values that it will see.
    #[verifier::external_body]
    fn subscribe(&self) -> (r: StatusSubscriber)
        ensures
            watched_observable(r) == *self,
    {
        StatusSubscriber { inner: self.inner.subscribe() }
    }

    /// Replaces the status with `eyeball::SharedObservable::set`. The former value is dropped, and
    /// nothing is claimed of what is held afterwards, since others may set it too.
    #[verifier::external_body]
    fn set(&self, value: SharedPaginationStatus) {
        let _ = self.inner.set(value);
    }
}

impl StatusSubscriber {
    /// Reads the current status with `eyeball::Subscriber::get`: one that the watched observable
    /// holds. Others set it at any time, so which one it is is left unsaid.
    #[verifier::external_body]
    fn get(&self) -> (r: SharedPaginationStatus)
        ensures
            holds_at_some_time(watched_observable(*self), r),
    {
        self.inner.get()
    }

    /// Reads the current status with `eyeball::Subscriber::next_now`, which also marks it as seen:
    /// one that the watched observable holds. The subscriber watches the same observable as before.
    /// Others set the status at any time, so which one it is is left unsaid.
    #[verifier::external_body]
    fn next_now(&mut self) -> (r: SharedPaginationStatus)
        ensures
            watched_observable(*final(self)) == watched_observable(*old(self)),
            holds_at_some_time(watched_observable(*old(self)), r),
    {
        self.inner.next_now()
    }
}

/// A subscriber to a [`PaginationStatus`].
#[derive(Debug)]
pub struct PaginationStatusSubscriber {
    subscriber: StatusSubscriber,
}

impl PaginationStatusSubscriber {
    /// The shared status that the subscriber watches.
    pub closed spec fn watched(self) -> StatusObservable {
        watched_observable(self.subscriber)
    }

    /// The status that others see of a shared status.
    pub fn map(from: SharedPaginationStatus) -> (r: PaginationStatus)
        ensures
            r == public_status(from),
    {
        match from {
            SharedPaginationStatus::Idle { hit_timeline_start } => PaginationStatus::Idle {
                hit_timeline_start,
            },
            SharedPaginationStatus::Paginating => PaginationStatus::Paginating,
        }
    }

    /// The current status: what others see of a status that the watched observable holds.
    pub fn get(&self) -> (r: PaginationStatus)
        ensures
            exists|shared: SharedPaginationStatus| #[trigger]
                holds_at_some_time(self.watched(), shared) && r == public_status(shared),
    {
        let shared = self.subscriber.get();
        assert(holds_at_some_time(self.watched(), shared));
        Self::map(shared)
    }

    /// The current status, which then counts as seen: what others see of a status that the watched
    /// observable holds.
    pub fn next_now(&mut self) -> (r: PaginationStatus)
        ensures
            final(self).watched() == old(self).watched(),
            exists|shared: SharedPaginationStatus| #[trigger]
                holds_at_some_time(old(self).watched(), shared) && r == public_status(shared),
    {
        let shared = self.subscriber.next_now();
        assert(holds_at_some_time(old(self).watched(), shared));
        Self::map(shared)
    }
}

/// Runs pagination queries on a room's event cache.
#[derive(Debug)]
pub struct RoomPagination {
    status: StatusObservable,
}

impl RoomPagination {
    /// The status that is shared with all subscribers.
    pub closed spec fn shared_status(self) -> StatusObservable {
        self.status
    }

    /// A pagination that is idle and has not seen the start of the timeline.
    pub fn new() -> (r: Self)
        ensures
            first_status(r.shared_status()) == (SharedPaginationStatus::Idle {
                hit_timeline_start: false,
            }),
            holds_at_some_time(
                r.shared_status(),
                SharedPaginationStatus::Idle { hit_timeline_start: false },
            ),
    {
        RoomPagination {
            status: StatusObservable::new(
                SharedPaginationStatus::Idle { hit_timeline_start: false },
            ),
        }
    }

    /// Returns a subscriber to the pagination status: to that of this pagination.
    pub fn status(&self) -> (r: PaginationStatusSubscriber)
        ensures
            r.watched() == self.shared_status(),
    {
        PaginationStatusSubscriber { subscriber: self.status.subscribe() }
    }

    /// Publishes a status to all subscribers.
    pub fn publish_status(&self, status: SharedPaginationStatus) {
        self.status.set(status);
    }
}

/// What one backward load gave.
#[derive(Debug)]
pub enum LoadMoreEventsBackwardsOutcome {
    /// A gap lies before the events in memory.
    Gap {
        /// The token of the gap, `None` for a room without any event.
        prev_token: Option<String>,
        /// Whether a pagination token from sync has been waited for once.
        waited_for_initial_prev_token: bool,
    },
    /// The start of the timeline is in memory.
    StartOfTimeline,
    /// Events were loaded from the store.
    Events {
        /// The events, oldest first.
        events: Vec<Event>,
        /// The change to the timeline.
        timeline_event_diffs: Vec<VectorDiff<Event>>,
        /// Whether no chunk lies before these events.
        reached_start: bool,
    },
}

/// Whether `at` is the newest gap in memory.
pub open spec fn is_newest_gap(chunks: Seq<Chunk>, at: int) -> bool {
    &&& 0 <= at < chunks.len()
    &&& chunks[at].content is Gap
    &&& forall|j: int| at < j < chunks.len() ==> (#[trigger] chunks[j]).content is Items
}

/// Whether no chunk in memory is a gap.
pub open spec fn has_no_gap(chunks: Seq<Chunk>) -> bool {
    forall|j: int| 0 <= j < chunks.len() ==> (#[trigger] chunks[j]).content is Items
}

/// Whether a chunk in memory holds an event.
pub open spec fn has_events(chunks: Seq<Chunk>) -> bool {
    exists|j: int|
        0 <= j < chunks.len() && ((#[trigger] chunks[j]).content matches ChunkContent::Items(events)
            && events@.len() > 0)
}

/// What a backward load does first.
#[derive(Debug)]
pub enum LoadRequest {
    /// The load is over.
    Finished(LoadMoreEventsBackwardsOutcome),
    /// The chunk before this one is to be loaded from the store.
    LoadBefore(u64),
}

/// What came of the request to the store.
#[derive(Debug)]
pub enum LoadReply {
    /// The store failed.
    Failed(EventCacheError),
    /// There is no chunk before the first one.
    Nothing,
    /// A chunk was loaded, and put before the first one in memory.
    Chunk {
        /// What the chunk holds.
        content: ChunkContent,
        /// The chunk before it, where there is one.
        previous: Option<u64>,
        /// The change to the timeline, or why the chunk does not fit.
        inserted: Result<Vec<VectorDiff<Event>>, EventCacheError>,
    },
}

/// The end of a backward load.
#[derive(Debug)]
pub struct LoadConclusion {
    /// Whether the room is to be cleared from the store.
    pub clear_storage: bool,
    /// What the load gave.
    pub result: Result<LoadMoreEventsBackwardsOutcome, EventCacheError>,
}

/// The newest gap in memory.
fn find_newest_gap(chunks: &[Chunk]) -> (r: Option<usize>)
    ensures
        match r {
            Some(at) => is_newest_gap(chunks@, at as int),
            None => has_no_gap(chunks@),
        },
{
    let mut left: usize = chunks.len();
    while left > 0
        invariant
            left <= chunks@.len(),
            forall|j: int| left <= j < chunks@.len() ==> (#[trigger] chunks@[j]).content is Items,
        decreases left,
    {
        left -= 1;
        if let ChunkContent::Gap(_) = &chunks[left].content {
            return Some(left);
        }
    }
    None
}

/// Tells whether a chunk in memory holds an event.
fn any_event(chunks: &[Chunk]) -> (r: bool)
    ensures
        r == has_events(chunks@),
{
    let mut i: usize = 0;
    while i < chunks.len()
        invariant
            i <= chunks@.len(),
            forall|j: int|
                0 <= j < i ==> !((#[trigger] chunks@[j]).content matches ChunkContent::Items(events)
                    && events@.len() > 0),
        decreases chunks@.len() - i,
    {
        if let ChunkContent::Items(events) = &chunks[i].content {
            if events.len() > 0 {
                assert(chunks@[i as int].content matches ChunkContent::Items(events)
                    && events@.len() > 0);
                return true;
            }
        }
        i += 1;
    }
    false
}

/// Starts a backward load. A gap in memory ends it: the gap is to be resolved first. Otherwise the
/// chunk before the first one in memory is wanted.
pub fn begin_load_more_events_backwards(state: &RoomEventCacheState) -> (r: LoadRequest)
    requires
        state.chunks@.len() > 0,
    ensures
        has_no_gap(state.chunks@) ==> r == LoadRequest::LoadBefore(state.chunks@[0].identifier),
        forall|at: int|
            #[trigger] is_newest_gap(state.chunks@, at) ==> r == LoadRequest::Finished(
                LoadMoreEventsBackwardsOutcome::Gap {
                    prev_token: Some(state.chunks@[at].content->Gap_0.token),
                    waited_for_initial_prev_token: state.waited_for_initial_prev_token,
                },
            ),
{
    match find_newest_gap(&state.chunks) {
        Some(at) => {
            let prev_token = match &state.chunks[at].content {
                ChunkContent::Gap(gap) => Some(gap.token.clone()),
                ChunkContent::Items(_) => None,
            };
            proof {
                assert forall|other: int| #[trigger]
                    is_newest_gap(state.chunks@, other) implies other == at by {
                    if other < at {
                        assert(state.chunks@[at as int].content is Items);
                    }
                    if at < other {
                        assert(state.chunks@[other].content is Items);
                    }
                }
            }
            LoadRequest::Finished(
                LoadMoreEventsBackwardsOutcome::Gap {
                    prev_token,
                    waited_for_initial_prev_token: state.waited_for_initial_prev_token,
                },
            )
        },
        None => LoadRequest::LoadBefore(state.chunks[0].identifier),
    }
}

/// What a backward load gives, from what came of the request to the store.
pub open spec fn load_result(
    state: RoomEventCacheState,
    reply: LoadReply,
) -> Result<LoadMoreEventsBackwardsOutcome, EventCacheError> {
    match reply {
        LoadReply::Failed(error) => Err(error),
        LoadReply::Nothing => if has_events(state.chunks@) {
            Ok(LoadMoreEventsBackwardsOutcome::StartOfTimeline)
        } else {
            Ok(
                LoadMoreEventsBackwardsOutcome::Gap {
                    prev_token: None,
                    waited_for_initial_prev_token: state.waited_for_initial_prev_token,
                },
            )
        },
        LoadReply::Chunk { inserted: Err(error), .. } => Err(error),
        LoadReply::Chunk { content: ChunkContent::Gap(gap), inserted: Ok(_), .. } => Ok(
            LoadMoreEventsBackwardsOutcome::Gap {
                prev_token: Some(gap.token),
                waited_for_initial_prev_token: state.waited_for_initial_prev_token,
            },
        ),
        LoadReply::Chunk { content: ChunkContent::Items(events), previous, inserted: Ok(diffs) } =>
        Ok(
            LoadMoreEventsBackwardsOutcome::Events {
                events,
                timeline_event_diffs: diffs,
                reached_start: previous is None,
            },
        ),
    }
}

/// Ends a backward load. An error of the store, or a chunk that does not fit, means that the stored
/// room is not to be trusted: it is to be cleared, and the error is returned.
pub fn load_more_events_backwards(state: &RoomEventCacheState, reply: LoadReply) -> (r:
    LoadConclusion)
    ensures
        r.result == load_result(*state, reply),
        r.clear_storage == (r.result is Err),
        reply matches LoadReply::Chunk {
            content: ChunkContent::Items(events),
            previous,
            inserted: Ok(diffs),
        } ==> r.result == Ok::<LoadMoreEventsBackwardsOutcome, EventCacheError>(
            LoadMoreEventsBackwardsOutcome::Events {
                events,
                timeline_event_diffs: diffs,
                reached_start: previous is None,
            },
        ),
{
    match reply {
        LoadReply::Failed(error) => LoadConclusion { clear_storage: true, result: Err(error) },
        LoadReply::Nothing => {
            let outcome = if any_event(&state.chunks) {
                LoadMoreEventsBackwardsOutcome::StartOfTimeline
            } else {
                LoadMoreEventsBackwardsOutcome::Gap {
                    prev_token: None,
                    waited_for_initial_prev_token: state.waited_for_initial_prev_token,
                }
            };
            LoadConclusion { clear_storage: false, result: Ok(outcome) }
        },
        LoadReply::Chunk { content, previous, inserted } => {
            let timeline_event_diffs = match inserted {
                Ok(diffs) => diffs,
                Err(error) => {
                    return LoadConclusion { clear_storage: true, result: Err(error) };
                },
            };
            let reached_start = previous.is_none();
            let outcome = match content {
                ChunkContent::Gap(gap) => LoadMoreEventsBackwardsOutcome::Gap {
                    prev_token: Some(gap.token),
                    waited_for_initial_prev_token: state.waited_for_initial_prev_token,
                },
                ChunkContent::Items(events) => LoadMoreEventsBackwardsOutcome::Events {
                    events,
                    timeline_event_diffs,
                    reached_start,
                },
            };
            LoadConclusion { clear_storage: false, result: Ok(outcome) }
        },
    }
}

/// Notes that a pagination token from sync has been waited for.
pub fn mark_has_waited_for_initial_prev_token(state: &mut RoomEventCacheState)
    ensures
        *final(state) == (RoomEventCacheState {
            waited_for_initial_prev_token: true,
            ..*old(state)
        }),
{
    state.waited_for_initial_prev_token = true;
}

/// The events that one pagination gave.
#[derive(Debug)]
pub struct BackPaginationOutcome {
    /// Whether the start of the timeline has been reached.
    pub reached_start: bool,
    /// The events, newest first.
    pub events: Vec<Event>,
}

/// A change to the timeline, with the reason for it.
#[derive(Debug)]
pub struct TimelineVectorDiffs {
    /// The change.
    pub diffs: Vec<VectorDiff<Event>>,
    /// The reason.
    pub origin: EventsOrigin,
}

/// Ends a pagination that loaded events from the store. The first part is what to send to the
/// timeline: nothing where the load gave no change.
pub fn conclude_backwards_pagination_from_disk(
    events: Vec<Event>,
    timeline_event_diffs: Vec<VectorDiff<Event>>,
    reached_start: bool,
) -> (r: (Option<TimelineVectorDiffs>, BackPaginationOutcome))
    ensures
        timeline_event_diffs@.len() == 0 ==> r.0 is None,
        timeline_event_diffs@.len() > 0 ==> r.0 == Some(
            (TimelineVectorDiffs { diffs: timeline_event_diffs, origin: EventsOrigin::Cache }),
        ),
        r.1.reached_start == reached_start,
        r.1.events@ == events@.reverse(),
{
    let broadcast = if timeline_event_diffs.len() == 0 {
        None
    } else {
        Some(TimelineVectorDiffs { diffs: timeline_event_diffs, origin: EventsOrigin::Cache })
    };
    (broadcast, BackPaginationOutcome { reached_start, events: reversed(&events) })
}

/// Whether a chunk is the gap of the given token.
pub open spec fn is_gap_of(chunk: Chunk, token: Seq<char>) -> bool {
    chunk.content matches ChunkContent::Gap(gap) && gap.token@ == token
}

/// Whether `at` is the newest gap of the given token.
pub open spec fn is_newest_gap_of(chunks: Seq<Chunk>, token: Seq<char>, at: int) -> bool {
    &&& 0 <= at < chunks.len()
    &&& is_gap_of(chunks[at], token)
    &&& forall|j: int| at < j < chunks.len() ==> !is_gap_of(#[trigger] chunks[j], token)
}

/// Whether `id` identifies the newest gap of the given token.
pub open spec fn identifies_newest_gap_of(chunks: Seq<Chunk>, token: Seq<char>, id: u64) -> bool {
    exists|i: int| #[trigger] is_newest_gap_of(chunks, token, i) && chunks[i].identifier == id
}

/// The gap that a network pagination started from.
#[derive(Clone, Copy, Debug, PartialEq, Eq, Structural)]
pub enum PrevGap {
    /// The gap is gone: the timeline was reset while the request was on its way.
    TimelineReset,
    /// The chunk of the gap, `None` where the pagination started from the end of the room.
    Known(Option<u64>),
}

/// Looks for the gap that a network pagination started from; the newest where several have its
/// token.
pub fn find_prev_gap(state: &RoomEventCacheState, prev_token: &Option<String>) -> (r: PrevGap)
    ensures
        *prev_token is None ==> r == PrevGap::Known(None),
        *prev_token matches Some(token) ==> match r {
            PrevGap::TimelineReset => forall|i: int|
                0 <= i < state.chunks@.len() ==> !is_gap_of(#[trigger] state.chunks@[i], token@),
            PrevGap::Known(found) => found matches Some(id) && identifies_newest_gap_of(
                state.chunks@,
                token@,
                id,
            ),
        },
{
    let token = match prev_token {
        Some(token) => token,
        None => {
            return PrevGap::Known(None);
        },
    };
    let mut left: usize = state.chunks.len();
    while left > 0
        invariant
            left <= state.chunks@.len(),
            *prev_token == Some(*token),
            forall|j: int|
                left <= j < state.chunks@.len() ==> !is_gap_of(#[trigger] state.chunks@[j], token@),
        decreases left,
    {
        left -= 1;
        if let ChunkContent::Gap(gap) = &state.chunks[left].content {
            if same_text(gap.token.as_str(), token.as_str()) {
                assert(is_newest_gap_of(state.chunks@, token@, left as int));
                return PrevGap::Known(Some(state.chunks[left].identifier));
            }
        }
    }
    PrevGap::TimelineReset
}

/// The changes that a page from the network makes to the cache, in this order: the duplicates are
/// removed, then the gap is replaced by the new gap and the events.
#[derive(Debug)]
pub struct NetworkMutation {
    /// The duplicates to remove from memory and from the store.
    pub removal: Option<(Vec<String>, Vec<String>)>,
    /// The gap to replace.
    pub prev_gap_id: Option<u64>,
    /// The gap before the events.
    pub new_gap: Option<Gap>,
    /// The events, oldest first.
    pub topo_ordered_events: Vec<Event>,
}

/// Decides what a deduplicated page from the network changes. The second part are the events of the
/// page that count, newest first.
///
/// A page with something new is inserted whole and its duplicates lose their old places, so that
/// no event stands before an older one. A page of duplicates only is ignored, and so is its token.
pub fn conclude_backwards_pagination_from_network(
    prev_gap_id: Option<u64>,
    new_token: Option<String>,
    found: DeduplicationOutcome,
) -> (r: (NetworkMutation, Vec<Event>))
    ensures
        r.0.prev_gap_id == prev_gap_id,
        r.0.topo_ordered_events@ == r.1@.reverse(),
        !found.non_empty_all_duplicates ==> {
            &&& r.1@ == found.all_events@
            &&& r.0.removal == Some(
                (found.in_memory_duplicated_event_ids, found.in_store_duplicated_event_ids),
            )
            &&& r.0.new_gap == match new_token {
                Some(token) => Some(Gap { token }),
                None => None,
            }
        },
        found.non_empty_all_duplicates ==> {
            &&& r.1@.len() == 0
            &&& r.0.removal is None
            &&& r.0.new_gap is None
        },
{
    let mut events = found.all_events;
    let mut new_token = new_token;
    let mut removal: Option<(Vec<String>, Vec<String>)> = None;
    if !found.non_empty_all_duplicates {
        removal = Some((found.in_memory_duplicated_event_ids, found.in_store_duplicated_event_ids));
    } else {
        events.clear();
        new_token = None;
    }
    let topo_ordered_events = reversed(&events);
    let new_gap = match new_token {
        Some(token) => Some(Gap { token }),
        None => None,
    };
    (NetworkMutation { removal, prev_gap_id, new_gap, topo_ordered_events }, events)
}

/// Ends a pagination that took a page from the network. The first part is what to send to the
/// timeline: nothing where the page gave no change.
pub fn finish_backwards_pagination_from_network(
    events: Vec<Event>,
    reached_start: bool,
    timeline_event_diffs: Vec<VectorDiff<Event>>,
) -> (r: (Option<TimelineVectorDiffs>, BackPaginationOutcome))
    ensures
        timeline_event_diffs@.len() == 0 ==> r.0 is None,
        timeline_event_diffs@.len() > 0 ==> r.0 == Some(
            (TimelineVectorDiffs { diffs: timeline_event_diffs, origin: EventsOrigin::Pagination }),
        ),
        r.1 == (BackPaginationOutcome { reached_start, events }),
{
    let sent = if timeline_event_diffs.len() == 0 {
        None
    } else {
        Some(TimelineVectorDiffs { diffs: timeline_event_diffs, origin: EventsOrigin::Pagination })
    };
    (sent, BackPaginationOutcome { reached_start, events })
}

/// A request for one page of a room's messages, newest first.
#[derive(Debug)]
pub struct MessagesOptions {
    /// The token to start from, `None` for the end of the room.
    pub from: Option<String>,
    /// The most events that the page may hold.
    pub limit: u64,
}

/// The request that a network pagination makes; `None` where the room is gone.
pub fn paginate_backwards_with_network(
    room_available: bool,
    batch_size: u16,
    prev_token: &Option<String>,
) -> (r: Option<MessagesOptions>)
    ensures
        r is Some <==> room_available,
        r matches Some(options) ==> options.limit == batch_size && options.from == *prev_token,
{
    if !room_available {
        return None;
    }
    Some(MessagesOptions { from: prev_token.clone(), limit: batch_size as u64 })
}

/// The part of a page that a network pagination keeps: its events and the token before them.
pub fn page_of_messages(response: Messages) -> (r: (Vec<Event>, Option<String>))
    ensures
        r == (response.chunk, response.end),
{
    (response.chunk, response.end)
}

/// Outcome of a backward load from the cache only.
#[derive(Clone, Copy, Debug, PartialEq, Eq, Structural)]
pub struct CacheOnlyBackOutcome {
    /// Total number of events loaded from the store.
    pub events_loaded: usize,
    /// Number of chunks read from the store.
    pub chunks_loaded: usize,
    /// Whether the anchor is in one of the loaded chunks. If so, the change that carries it has
    /// been sent to the timeline.
    pub anchor_present: bool,
    /// Whether the start of the stored timeline was reached.
    pub reached_start: bool,
    /// Whether a gap was met before enough events were loaded.
    pub hit_gap: bool,
}

/// A [`CacheOnlyBackOutcome`] over unbounded counts.
pub struct CacheOnlyResult {
    /// Events loaded.
    pub events_loaded: int,
    /// Chunks loaded.
    pub chunks_loaded: int,
    /// Whether the anchor was found.
    pub anchor_present: bool,
    /// Whether the start was reached.
    pub reached_start: bool,
    /// Whether a gap was met.
    pub hit_gap: bool,
}

impl View for CacheOnlyBackOutcome {
    type V = CacheOnlyResult;

    open spec fn view(&self) -> CacheOnlyResult {
        CacheOnlyResult {
            events_loaded: self.events_loaded as int,
            chunks_loaded: self.chunks_loaded as int,
            anchor_present: self.anchor_present,
            reached_start: self.reached_start,
            hit_gap: self.hit_gap,
        }
    }
}

/// Whether the anchor is one of the events.
pub open spec fn holds_anchor(events: Seq<Event>, anchor: Option<Seq<char>>) -> bool {
    anchor is Some && exists|i: int| 0 <= i < events.len() && #[trigger] events[i].id() == anchor
}

/// The number of events that a load gave.
pub open spec fn loaded_events(load: LoadMoreEventsBackwardsOutcome) -> int {
    match load {
        LoadMoreEventsBackwardsOutcome::Events { events, .. } => events@.len() as int,
        _ => 0,
    }
}

/// The number of chunks that a load gave.
pub open spec fn loaded_chunks(load: LoadMoreEventsBackwardsOutcome) -> int {
    if load is Events {
        1
    } else {
        0
    }
}

/// How a load ends the run, where it does; the counts include the load.
pub open spec fn ending_load(
    anchor: Option<Seq<char>>,
    load: LoadMoreEventsBackwardsOutcome,
    events_loaded: int,
    chunks_loaded: int,
) -> Option<CacheOnlyResult> {
    let result = CacheOnlyResult {
        events_loaded,
        chunks_loaded,
        anchor_present: false,
        reached_start: false,
        hit_gap: false,
    };
    match load {
        LoadMoreEventsBackwardsOutcome::Gap { .. } => Some(
            CacheOnlyResult { hit_gap: true, ..result },
        ),
        LoadMoreEventsBackwardsOutcome::StartOfTimeline => Some(
            CacheOnlyResult { reached_start: true, ..result },
        ),
        LoadMoreEventsBackwardsOutcome::Events { events, reached_start, .. } => if holds_anchor(
            events@,
            anchor,
        ) {
            Some(CacheOnlyResult { anchor_present: true, reached_start, ..result })
        } else if reached_start {
            Some(CacheOnlyResult { reached_start: true, ..result })
        } else {
            None
        },
    }
}

/// A backward load from the cache only, between two loads.
#[derive(Debug)]
pub struct CacheOnlyBackLoad {
    /// The number of events wanted.
    pub target: usize,
    /// The event that ends the run once it is loaded.
    pub anchor: Option<String>,
    /// Events loaded so far.
    pub events_loaded: usize,
    /// Chunks loaded so far.
    pub chunks_loaded: usize,
}

/// What one load means for the run.
#[derive(Debug)]
pub struct CacheOnlyStep {
    /// The change to send to the timeline.
    pub sent: Option<TimelineVectorDiffs>,
    /// The end of the run, where the load ends it.
    pub outcome: Option<CacheOnlyBackOutcome>,
}

impl RoomPagination {
    /// Starts to load up to `n` events backward from the cache only, without the network.
    ///
    /// The run ends when the anchor is loaded, when `n` events are loaded, at a gap, or at the
    /// start of the timeline.
    pub fn run_backwards_cache_only(n: u16, anchor_event_id: Option<String>) -> (run:
        CacheOnlyBackLoad)
        ensures
            run == (CacheOnlyBackLoad {
                target: n as usize,
                anchor: anchor_event_id,
                events_loaded: 0,
                chunks_loaded: 0,
            }),
    {
        CacheOnlyBackLoad {
            target: n as usize,
            anchor: anchor_event_id,
            events_loaded: 0,
            chunks_loaded: 0,
        }
    }
}

impl CacheOnlyBackLoad {
    /// How the run ends that sees the given loads; `None` where it wants more.
    pub open spec fn outcome_after(
        self,
        loads: Seq<LoadMoreEventsBackwardsOutcome>,
    ) -> Option<CacheOnlyResult> {
        cache_only_run(
            self.target as int,
            opt_text(self.anchor),
            self.events_loaded as int,
            self.chunks_loaded as int,
            loads,
        )
    }

    /// The end of the run, where enough events are loaded; `None` where another load is wanted.
    pub fn satisfied(&self) -> (r: Option<CacheOnlyBackOutcome>)
        ensures
            self.events_loaded < self.target ==> r is None,
            self.events_loaded >= self.target ==> r == Some(
                (CacheOnlyBackOutcome {
                    events_loaded: self.events_loaded,
                    chunks_loaded: self.chunks_loaded,
                    anchor_present: false,
                    reached_start: false,
                    hit_gap: false,
                }),
            ),
            r matches Some(outcome) ==> forall|loads: Seq<LoadMoreEventsBackwardsOutcome>|
                #[trigger] self.outcome_after(loads) == Some(outcome@),
    {
        if self.events_loaded >= self.target {
            return Some(
                CacheOnlyBackOutcome {
                    events_loaded: self.events_loaded,
                    chunks_loaded: self.chunks_loaded,
                    anchor_present: false,
                    reached_start: false,
                    hit_gap: false,
                },
            );
        }
        None
    }

    /// Takes in one load. Loaded events are concluded as those of any pagination from the store.
    pub fn step(&mut self, load: LoadMoreEventsBackwardsOutcome) -> (r: CacheOnlyStep)
        requires
            old(self).events_loaded + loaded_events(load) <= usize::MAX,
            old(self).chunks_loaded < usize::MAX,
        ensures
            final(self).target == old(self).target,
            final(self).anchor == old(self).anchor,
            final(self).events_loaded == old(self).events_loaded + loaded_events(load),
            final(self).chunks_loaded == old(self).chunks_loaded + loaded_chunks(load),
            match r.outcome {
                Some(outcome) => Some(outcome@),
                None => None,
            } == ending_load(
                opt_text(old(self).anchor),
                load,
                final(self).events_loaded as int,
                final(self).chunks_loaded as int,
            ),
            old(self).events_loaded < old(self).target ==> forall|
                rest: Seq<LoadMoreEventsBackwardsOutcome>,
            | #[trigger]
                old(self).outcome_after(seq![load] + rest) == match r.outcome {
                    Some(outcome) => Some(outcome@),
                    None => final(self).outcome_after(rest),
                },
            match load {
                LoadMoreEventsBackwardsOutcome::Events { timeline_event_diffs, .. } => if timeline_event_diffs@.len()
                    == 0 {
                    r.sent is None
                } else {
                    r.sent == Some(
                        TimelineVectorDiffs {
                            diffs: timeline_event_diffs,
                            origin: EventsOrigin::Cache,
                        },
                    )
                },
                _ => r.sent is None,
            },
    {
        proof {
            assert forall|rest: Seq<LoadMoreEventsBackwardsOutcome>| #[trigger]
                (seq![load] + rest).drop_first() == rest by {
                assert((seq![load] + rest).drop_first() =~= rest);
            }
        }
        match load {
            LoadMoreEventsBackwardsOutcome::Gap { .. } => CacheOnlyStep {
                sent: None,
                outcome: Some(
                    CacheOnlyBackOutcome {
                        events_loaded: self.events_loaded,
                        chunks_loaded: self.chunks_loaded,
                        anchor_present: false,
                        reached_start: false,
                        hit_gap: true,
                    },
                ),
            },
            LoadMoreEventsBackwardsOutcome::StartOfTimeline => CacheOnlyStep {
                sent: None,
                outcome: Some(
                    CacheOnlyBackOutcome {
                        events_loaded: self.events_loaded,
                        chunks_loaded: self.chunks_loaded,
                        anchor_present: false,
                        reached_start: true,
                        hit_gap: false,
                    },
                ),
            },
            LoadMoreEventsBackwardsOutcome::Events {
                events,
                timeline_event_diffs,
                reached_start,
            } => {
                let count = events.len();
                let anchor_present = match &self.anchor {
                    Some(id) => contains_event(&events, id.as_str()),
                    None => false,
                };
                assert(anchor_present == holds_anchor(events@, opt_text(self.anchor)));
                let (sent, _) = conclude_backwards_pagination_from_disk(
                    events,
                    timeline_event_diffs,
                    reached_start,
                );
                self.events_loaded = self.events_loaded + count;
                self.chunks_loaded = self.chunks_loaded + 1;
                let outcome = if anchor_present {
                    Some(
                        CacheOnlyBackOutcome {
                            events_loaded: self.events_loaded,
                            chunks_loaded: self.chunks_loaded,
                            anchor_present: true,
                            reached_start,
                            hit_gap: false,
                        },
                    )
                } else if reached_start {
                    Some(
                        CacheOnlyBackOutcome {
                            events_loaded: self.events_loaded,
                            chunks_loaded: self.chunks_loaded,
                            anchor_present: false,
                            reached_start: true,
                            hit_gap: false,
                        },
                    )
                } else {
                    None
                };
                CacheOnlyStep { sent, outcome }
            },
        }
    }
}

/// How a run ends that starts with the given counts and sees the given loads; `None` where it wants
/// more loads.
pub open spec fn cache_only_run(
    n: int,
    anchor: Option<Seq<char>>,
    events_loaded: int,
    chunks_loaded: int,
    loads: Seq<LoadMoreEventsBackwardsOutcome>,
) -> Option<CacheOnlyResult>
    decreases loads.len(),
{
    if events_loaded >= n {
        Some(
            CacheOnlyResult {
                events_loaded,
                chunks_loaded,
                anchor_present: false,
                reached_start: false,
                hit_gap: false,
            },
        )
    } else if loads.len() == 0 {
        None
    } else {
        let events = events_loaded + loaded_events(loads[0]);
        let chunks = chunks_loaded + loaded_chunks(loads[0]);
        match ending_load(anchor, loads[0], events, chunks) {
            Some(result) => Some(result),
            None => cache_only_run(n, anchor, events, chunks, loads.drop_first()),
        }
    }
}

/// The number of events that a list of loads gave.
pub open spec fn total_events(loads: Seq<LoadMoreEventsBackwardsOutcome>) -> int
    decreases loads.len(),
{
    if loads.len() == 0 {
        0
    } else {
        loaded_events(loads[0]) + total_events(loads.drop_first())
    }
}

/// Whether a load brought the anchor.
pub open spec fn brings_anchor(
    load: LoadMoreEventsBackwardsOutcome,
    anchor: Option<Seq<char>>,
) -> bool {
    load matches LoadMoreEventsBackwardsOutcome::Events { events, .. } && holds_anchor(
        events@,
        anchor,
    )
}

/// The flags of a finished run exclude each other, but for an anchor in the first chunk of the
/// room. A run without a flag has loaded all the events that were asked for.
pub proof fn cache_only_flags_are_consistent(
    n: int,
    anchor: Option<Seq<char>>,
    loads: Seq<LoadMoreEventsBackwardsOutcome>,
)
    ensures
        cache_only_run(n, anchor, 0, 0, loads) matches Some(result) ==> {
            &&& !(result.hit_gap && result.reached_start)
            &&& !(result.hit_gap && result.anchor_present)
            &&& (!result.hit_gap && !result.reached_start && !result.anchor_present
                ==> result.events_loaded >= n)
        },
{
    run_flags(n, anchor, 0, 0, loads);
}

proof fn run_flags(
    n: int,
    anchor: Option<Seq<char>>,
    events: int,
    chunks: int,
    loads: Seq<LoadMoreEventsBackwardsOutcome>,
)
    ensures
        cache_only_run(n, anchor, events, chunks, loads) matches Some(result) ==> {
            &&& !(result.hit_gap && result.reached_start)
            &&& !(result.hit_gap && result.anchor_present)
            &&& (!result.hit_gap && !result.reached_start && !result.anchor_present
                ==> result.events_loaded >= n)
        },
    decreases loads.len(),
{
    if events < n && loads.len() > 0 {
        run_flags(
            n,
            anchor,
            events + loaded_events(loads[0]),
            chunks + loaded_chunks(loads[0]),
            loads.drop_first(),
        );
    }
}

/// The counts of a finished run are those of the chunks it loaded, which are the first loads it
/// saw. The anchor is reported if and only if one of these chunks holds it.
pub proof fn cache_only_run_reports_what_it_loaded(
    n: int,
    anchor: Option<Seq<char>>,
    loads: Seq<LoadMoreEventsBackwardsOutcome>,
)
    ensures
        cache_only_run(n, anchor, 0, 0, loads) matches Some(result) ==> {
            &&& 0 <= result.chunks_loaded <= loads.len()
            &&& result.events_loaded == total_events(loads.take(result.chunks_loaded))
            &&& forall|i: int|
                0 <= i < result.chunks_loaded ==> (#[trigger] loads[i]) is Events
            &&& (result.anchor_present <==> exists|i: int|
                0 <= i < result.chunks_loaded && brings_anchor(#[trigger] loads[i], anchor))
        },
{
    run_counts(n, anchor, 0, 0, loads);
}

proof fn run_counts(
    n: int,
    anchor: Option<Seq<char>>,
    events: int,
    chunks: int,
    loads: Seq<LoadMoreEventsBackwardsOutcome>,
)
    ensures
        cache_only_run(n, anchor, events, chunks, loads) matches Some(result) ==> {
            let seen = result.chunks_loaded - chunks;
            &&& 0 <= seen <= loads.len()
            &&& result.events_loaded == events + total_events(loads.take(seen))
            &&& forall|i: int| 0 <= i < seen ==> (#[trigger] loads[i]) is Events
            &&& (result.anchor_present <==> exists|i: int|
                0 <= i < seen && brings_anchor(#[trigger] loads[i], anchor))
        },
    decreases loads.len(),
{
    reveal_with_fuel(total_events, 2);
    if events < n && loads.len() > 0 {
        let rest = loads.drop_first();
        let next_events = events + loaded_events(loads[0]);
        let next_chunks = chunks + loaded_chunks(loads[0]);
        run_counts(n, anchor, next_events, next_chunks, rest);
        if let Some(result) = cache_only_run(n, anchor, events, chunks, loads) {
            let seen = result.chunks_loaded - chunks;
            if ending_load(anchor, loads[0], next_events, next_chunks) is None {
                assert(loads.take(seen).drop_first() =~= rest.take(seen - 1));
                assert(loads.take(seen)[0] == loads[0]);
                assert forall|i: int| 0 <= i < seen implies (#[trigger] loads[i]) is Events by {
                    if i > 0 {
                        assert(rest[i - 1] == loads[i]);
                    }
                }
                if result.anchor_present {
                    let i = choose|i: int|
                        0 <= i < seen - 1 && brings_anchor(#[trigger] rest[i], anchor);
                    assert(brings_anchor(loads[i + 1], anchor));
                } else {
                    assert forall|i: int| 0 <= i < seen implies !brings_anchor(
                        #[trigger] loads[i],
                        anchor,
                    ) by {
                        if i > 0 {
                            assert(rest[i - 1] == loads[i]);
                        }
                    }
                }
            } else {
                if seen == 1 {
                    assert(loads.take(1).drop_first() =~= Seq::empty());
                    assert(loads.take(1)[0] == loads[0]);
                    assert(brings_anchor(loads[0], anchor) == result.anchor_present);
                }
            }
        }
    }
}

/// A chunk of events that was loaded is handed on whole, with its change to the timeline. The start is
/// reached exactly where no chunk lies before it, whatever the chunk and the change hold.
pub proof fn start_is_reached_where_no_chunk_lies_before(
    state: RoomEventCacheState,
    events: Vec<Event>,
    previous: Option<u64>,
    diffs: Vec<VectorDiff<Event>>,
)
    ensures
        load_result(
            state,
            LoadReply::Chunk {
                content: ChunkContent::Items(events),
                previous,
                inserted: Ok(diffs),
            },
        ) matches Ok(outcome) && (outcome matches LoadMoreEventsBackwardsOutcome::Events {
            events: given,
            timeline_event_diffs,
            reached_start,
        } && given == events && timeline_event_diffs == diffs && (reached_start <==> previous
            is None)),
{
}

/// Two loaded chunks with the same chunk before them reach the start alike: neither their events, nor
/// the changes, nor the cache they are put in make a difference.
pub proof fn start_depends_on_the_chunk_before_alone(
    state: RoomEventCacheState,
    other_state: RoomEventCacheState,
    events: Vec<Event>,
    other_events: Vec<Event>,
    previous: Option<u64>,
    diffs: Vec<VectorDiff<Event>>,
    other_diffs: Vec<VectorDiff<Event>>,
)
    ensures
        ({
            let one = load_result(
                state,
                LoadReply::Chunk {
                    content: ChunkContent::Items(events),
                    previous,
                    inserted: Ok(diffs),
                },
            );
            let other = load_result(
                other_state,
                LoadReply::Chunk {
                    content: ChunkContent::Items(other_events),
                    previous,
                    inserted: Ok(other_diffs),
                },
            );
            &&& one is Ok && one->Ok_0 is Events
            &&& other is Ok && other->Ok_0 is Events
            &&& one->Ok_0->reached_start == other->Ok_0->reached_start
        }),
{
}

/// A loaded gap is handed on with its token, whatever lies before it.
pub proof fn loaded_gap_is_handed_on(
    state: RoomEventCacheState,
    gap: Gap,
    previous: Option<u64>,
    diffs: Vec<VectorDiff<Event>>,
)
    ensures
        load_result(
            state,
            LoadReply::Chunk { content: ChunkContent::Gap(gap), previous, inserted: Ok(diffs) },
        ) matches Ok(outcome) && (outcome matches LoadMoreEventsBackwardsOutcome::Gap {
            prev_token,
            waited_for_initial_prev_token,
        } && prev_token == Some(gap.token) && waited_for_initial_prev_token
            == state.waited_for_initial_prev_token),
{
}

/// Where nothing lies before the chunks in memory, the start is reached if they hold an event; a room
/// without any event is to be filled from its end.
pub proof fn room_without_events_is_paginated_from_its_end(state: RoomEventCacheState)
    ensures
        load_result(state, LoadReply::Nothing) is Ok,
        load_result(state, LoadReply::Nothing)->Ok_0 is StartOfTimeline <==> exists|j: int|
            0 <= j < state.chunks@.len() && (#[trigger] state.chunks@[j]).content is Items
                && state.chunks@[j].content->Items_0@.len() > 0,
        load_result(state, LoadReply::Nothing)->Ok_0 !is StartOfTimeline ==> load_result(
            state,
            LoadReply::Nothing,
        )->Ok_0 == (LoadMoreEventsBackwardsOutcome::Gap {
            prev_token: None,
            waited_for_initial_prev_token: state.waited_for_initial_prev_token,
        }),
{
    if load_result(state, LoadReply::Nothing)->Ok_0 is StartOfTimeline {
        let j = choose|j: int|
            0 <= j < state.chunks@.len() && ((
            #[trigger] state.chunks@[j]).content matches ChunkContent::Items(events)
                && events@.len() > 0);
        assert(state.chunks@[j].content is Items && state.chunks@[j].content->Items_0@.len() > 0);
    }
}

/// A load fails exactly where the store failed or the loaded chunk does not fit, with the error given.
pub proof fn load_fails_with_the_error_given(state: RoomEventCacheState, reply: LoadReply)
    ensures
        reply matches LoadReply::Failed(error) ==> load_result(state, reply) == Err::<
            LoadMoreEventsBackwardsOutcome,
            EventCacheError,
        >(error),
        reply matches LoadReply::Chunk { inserted, .. } ==> (inserted matches Err(error)
            ==> load_result(state, reply) == Err::<LoadMoreEventsBackwardsOutcome, EventCacheError>(
            error,
        )),
        load_result(state, reply) is Err ==> reply is Failed || (
        reply matches LoadReply::Chunk { inserted, .. } && inserted is Err),
{
}

/// A gap put behind the chunks is the newest one; events put behind them change nothing.
pub proof fn newest_gap_is_the_last_one(chunks: Seq<Chunk>, newest: Chunk, at: int)
    ensures
        newest.content is Gap ==> !has_no_gap(chunks.push(newest)) && (is_newest_gap(
            chunks.push(newest),
            at,
        ) <==> at == chunks.len()),
        newest.content is Items ==> (has_no_gap(chunks.push(newest)) <==> has_no_gap(chunks)) && (
        is_newest_gap(chunks.push(newest), at) <==> is_newest_gap(chunks, at)),
        !is_newest_gap(Seq::empty(), at),
        has_no_gap(Seq::empty()),
{
    let more = chunks.push(newest);
    assert(more[chunks.len() as int] == newest);
    assert forall|j: int| 0 <= j < chunks.len() implies #[trigger] more[j] == chunks[j] by {}
    if newest.content is Items {
        if has_no_gap(more) {
            assert forall|j: int| 0 <= j < chunks.len() implies (
            #[trigger] chunks[j]).content is Items by {
                assert(more[j].content is Items);
            }
        }
        if is_newest_gap(more, at) {
            assert forall|j: int| at < j < chunks.len() implies (
            #[trigger] chunks[j]).content is Items by {
                assert(more[j].content is Items);
            }
        }
    }
}

/// Of the gaps with a token the last one counts: a gap with the token, put behind the chunks, is found
/// in place of all others, and any other chunk changes nothing.
pub proof fn newest_gap_of_a_token_is_the_last_one(
    chunks: Seq<Chunk>,
    newest: Chunk,
    token: Seq<char>,
    id: u64,
)
    ensures
        newest.content is Gap && newest.content->Gap_0.token@ == token ==> (
        identifies_newest_gap_of(chunks.push(newest), token, id) <==> id == newest.identifier),
        newest.content is Items || newest.content->Gap_0.token@ != token ==> (
        identifies_newest_gap_of(chunks.push(newest), token, id) <==> identifies_newest_gap_of(
            chunks,
            token,
            id,
        )),
        !identifies_newest_gap_of(Seq::empty(), token, id),
        is_gap_of(newest, token) <==> newest.content is Gap && newest.content->Gap_0.token@
            == token,
{
    let more = chunks.push(newest);
    let last = chunks.len() as int;
    assert(more[last] == newest);
    assert forall|j: int| 0 <= j < chunks.len() implies #[trigger] more[j] == chunks[j] by {}
    if is_gap_of(newest, token) {
        assert(is_newest_gap_of(more, token, last));
        assert forall|i: int| #[trigger] is_newest_gap_of(more, token, i) implies i == last by {
            if i < last {
                assert(!is_gap_of(more[last], token));
            }
        }
    } else {
        assert forall|i: int| #[trigger]
            is_newest_gap_of(more, token, i) implies is_newest_gap_of(chunks, token, i) by {
            assert forall|j: int| i < j < chunks.len() implies !is_gap_of(
                #[trigger] chunks[j],
                token,
            ) by {
                assert(!is_gap_of(more[j], token));
            }
        }
        assert forall|i: int| #[trigger]
            is_newest_gap_of(chunks, token, i) implies is_newest_gap_of(more, token, i) by {}
    }
}

/// Others see the status that is shared.
pub proof fn shared_status_is_seen_as_it_is(shared: SharedPaginationStatus)
    ensures
        public_status(shared) is Paginating <==> shared is Paginating,
        public_status(shared) matches PaginationStatus::Idle { hit_timeline_start } ==> (
        shared matches SharedPaginationStatus::Idle { hit_timeline_start: start }
            && hit_timeline_start == start),
{
}

/// The anchor is one of the events where one of them has its identifier.
pub proof fn anchor_is_found_by_its_identifier(
    load: LoadMoreEventsBackwardsOutcome,
    anchor: Option<Seq<char>>,
)
    ensures
        brings_anchor(load, anchor) <==> load is Events && anchor is Some && exists|j: int|
            0 <= j < load->events@.len() && (#[trigger] load->events@[j]).event_id is Some
                && load->events@[j].event_id->0@ == anchor->0,
        load matches LoadMoreEventsBackwardsOutcome::Events { events, .. } ==> holds_anchor(
            events@,
            anchor,
        ) == brings_anchor(load, anchor),
{
    if load is Events && anchor is Some {
        let events = load->events@;
        if brings_anchor(load, anchor) {
            let j = choose|j: int| 0 <= j < events.len() && #[trigger] events[j].id() == anchor;
            assert(events[j].event_id is Some && events[j].event_id->0@ == anchor->0);
        }
        if exists|j: int|
            0 <= j < events.len() && (#[trigger] events[j]).event_id is Some
                && events[j].event_id->0@ == anchor->0 {
            let j = choose|j: int|
                0 <= j < events.len() && (#[trigger] events[j]).event_id is Some
                    && events[j].event_id->0@ == anchor->0;
            assert(events[j].id() == anchor);
        }
    }
}

/// Each load of events counts as one chunk with all its events; the other loads count for nothing.
pub proof fn one_more_load_counts_with_its_events(
    loads: Seq<LoadMoreEventsBackwardsOutcome>,
    load: LoadMoreEventsBackwardsOutcome,
)
    ensures
        total_events(Seq::empty()) == 0,
        load is Events ==> {
            &&& loaded_events(load) == load->events@.len()
            &&& loaded_chunks(load) == 1
            &&& total_events(loads.push(load)) == total_events(loads) + load->events@.len()
        },
        load !is Events ==> {
            &&& loaded_events(load) == 0
            &&& loaded_chunks(load) == 0
            &&& total_events(loads.push(load)) == total_events(loads)
        },
    decreases loads.len(),
{
    let more = loads.push(load);
    if loads.len() == 0 {
        assert(more.drop_first() =~= Seq::empty());
    } else {
        assert(more.drop_first() =~= loads.drop_first().push(load));
        one_more_load_counts_with_its_events(loads.drop_first(), load);
    }
}

/// A load ends the run exactly where it is none of events, brings the anchor, or reaches the start. The
/// counts are reported as they stand, and the flags are those of the load.
pub proof fn load_ends_the_run_at_a_gap_the_start_or_the_anchor(
    anchor: Option<Seq<char>>,
    load: LoadMoreEventsBackwardsOutcome,
    events_loaded: int,
    chunks_loaded: int,
)
    ensures
        ({
            let end = ending_load(anchor, load, events_loaded, chunks_loaded);
            &&& end is None <==> load is Events && !load->reached_start && !brings_anchor(
                load,
                anchor,
            )
            &&& end matches Some(result) ==> {
                &&& result.events_loaded == events_loaded
                &&& result.chunks_loaded == chunks_loaded
                &&& result.hit_gap <==> load is Gap
                &&& result.anchor_present <==> brings_anchor(load, anchor)
                &&& result.reached_start <==> load is StartOfTimeline || (load is Events
                    && load->reached_start)
            }
        }),
{
}

/// What is reported of a run is what its outcome holds.
pub proof fn outcome_is_seen_as_it_is(outcome: CacheOnlyBackOutcome)
    ensures
        outcome@.events_loaded == outcome.events_loaded,
        outcome@.chunks_loaded == outcome.chunks_loaded,
        outcome@.anchor_present == outcome.anchor_present,
        outcome@.reached_start == outcome.reached_start,
        outcome@.hit_gap == outcome.hit_gap,
{
}

/// A run loads no more than it needs. Before its last chunk it had neither enough events, nor the
/// anchor, nor the start. Its flags are those of its last chunk where this brought the anchor or the
/// start. Otherwise, it either has enough events, or a gap or the start stands next.
pub proof fn run_ends_at_the_first_reason_to_end(
    run: CacheOnlyBackLoad,
    loads: Seq<LoadMoreEventsBackwardsOutcome>,
)
    ensures
        run.outcome_after(loads) matches Some(result) ==> {
            let anchor = opt_text(run.anchor);
            let seen = result.chunks_loaded - run.chunks_loaded;
            let last = loads[seen - 1];
            &&& 0 <= seen <= loads.len()
            &&& forall|i: int| 0 <= i < seen ==> (#[trigger] loads[i]) is Events
            &&& forall|i: int|
                0 <= i < seen - 1 ==> !(#[trigger] loads[i])->reached_start && !brings_anchor(
                    loads[i],
                    anchor,
                )
            &&& forall|i: int|
                0 <= i < seen ==> run.events_loaded + total_events(#[trigger] loads.take(i))
                    < run.target
            &&& result.events_loaded == run.events_loaded + total_events(loads.take(seen))
            &&& if seen > 0 && (last->reached_start || brings_anchor(last, anchor)) {
                &&& !result.hit_gap
                &&& result.reached_start == last->reached_start
                &&& result.anchor_present == brings_anchor(last, anchor)
            } else if result.events_loaded >= run.target {
                &&& !result.hit_gap
                &&& !result.reached_start
                &&& !result.anchor_present
            } else {
                &&& seen < loads.len()
                &&& loads[seen] !is Events
                &&& result.hit_gap == (loads[seen] is Gap)
                &&& result.reached_start == (loads[seen] is StartOfTimeline)
                &&& !result.anchor_present
            }
        },
        run.outcome_after(loads) is None ==> {
            &&& run.events_loaded + total_events(loads) < run.target
            &&& forall|i: int|
                0 <= i < loads.len() ==> (#[trigger] loads[i]) is Events && !loads[i]->reached_start
                    && !brings_anchor(loads[i], opt_text(run.anchor))
        },
{
    run_ends(
        run.target as int,
        opt_text(run.anchor),
        run.events_loaded as int,
        run.chunks_loaded as int,
        loads,
    );
}

proof fn run_ends(
    n: int,
    anchor: Option<Seq<char>>,
    events: int,
    chunks: int,
    loads: Seq<LoadMoreEventsBackwardsOutcome>,
)
    ensures
        cache_only_run(n, anchor, events, chunks, loads) matches Some(result) ==> {
            let seen = result.chunks_loaded - chunks;
            let last = loads[seen - 1];
            &&& 0 <= seen <= loads.len()
            &&& forall|i: int| 0 <= i < seen ==> (#[trigger] loads[i]) is Events
            &&& forall|i: int|
                0 <= i < seen - 1 ==> !(#[trigger] loads[i])->reached_start && !brings_anchor(
                    loads[i],
                    anchor,
                )
            &&& forall|i: int|
                0 <= i < seen ==> events + total_events(#[trigger] loads.take(i)) < n
            &&& result.events_loaded == events + total_events(loads.take(seen))
            &&& if seen > 0 && (last->reached_start || brings_anchor(last, anchor)) {
                &&& !result.hit_gap
                &&& result.reached_start == last->reached_start
                &&& result.anchor_present == brings_anchor(last, anchor)
            } else if result.events_loaded >= n {
                &&& !result.hit_gap
                &&& !result.reached_start
                &&& !result.anchor_present
            } else {
                &&& seen < loads.len()
                &&& loads[seen] !is Events
                &&& result.hit_gap == (loads[seen] is Gap)
                &&& result.reached_start == (loads[seen] is StartOfTimeline)
                &&& !result.anchor_present
            }
        },
        cache_only_run(n, anchor, events, chunks, loads) is None ==> {
            &&& events + total_events(loads) < n
            &&& forall|i: int|
                0 <= i < loads.len() ==> (#[trigger] loads[i]) is Events && !loads[i]->reached_start
                    && !brings_anchor(loads[i], anchor)
        },
    decreases loads.len(),
{
    assert(loads.take(0) =~= Seq::empty());
    if events < n && loads.len() > 0 {
        let rest = loads.drop_first();
        let first = loads[0];
        let next_events = events + loaded_events(first);
        let next_chunks = chunks + loaded_chunks(first);
        assert(loads.take(1).drop_first() =~= Seq::empty());
        assert(loads.take(1)[0] == first);
        assert(total_events(loads.take(1)) == loaded_events(first)) by {
            reveal_with_fuel(total_events, 2);
        }
        if ending_load(anchor, first, next_events, next_chunks) is None {
            run_ends(n, anchor, next_events, next_chunks, rest);
            assert forall|i: int| 0 < i <= loads.len() implies total_events(
                #[trigger] loads.take(i),
            ) == loaded_events(first) + total_events(rest.take(i - 1)) by {
                assert(loads.take(i).drop_first() =~= rest.take(i - 1));
                assert(loads.take(i)[0] == first);
            }
            assert forall|i: int| 0 < i < loads.len() implies #[trigger] loads[i] == rest[i
                - 1] by {}
            if let Some(result) = cache_only_run(n, anchor, events, chunks, loads) {
                let seen = result.chunks_loaded - chunks;
                assert forall|i: int| 0 <= i < seen implies events + total_events(
                    #[trigger] loads.take(i),
                ) < n by {
                    if i > 0 {
                        assert(next_events + total_events(rest.take(i - 1)) < n);
                    }
                }
            }
        }
    }
}

} // verus!
