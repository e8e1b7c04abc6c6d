//! Refreshing the live tail of a room: one page is requested from the end of the room and
//! reconciled with the events that the cache holds after its newest gap.

use vstd::prelude::*;

use crate::room_cache::{
    event_ids, identifiers_grow_with_the_events, reversed, Chunk, ChunkContent,
    DeduplicationOutcome, Event, EventCacheError, EventsOrigin, Gap, Messages,
    RoomEventCacheState,
};
use crate::room_pagination::RoomPagination;
use crate::text::{contains_text, opt_text, position_of, same_opt_text, texts};

verus! {

/// Captured identity of the room cache before a live-tail request.
#[derive(Debug)]
pub struct LiveTailSnapshotFence {
    /// The identity of the set of gaps.
    pub gap_snapshot_id: u64,
    /// The count of changes to where the gaps stand.
    pub gap_topology_generation: u64,
    /// The newest event of the room.
    pub newest_event_id: Option<String>,
    /// The events after the newest gap, newest first.
    pub contiguous_suffix_event_ids: Vec<String>,
}

/// The identifiers of the events after the newest gap, newest first.
pub open spec fn contiguous_suffix(chunks: Seq<Chunk>) -> Seq<Seq<char>>
    decreases chunks.len(),
{
    if chunks.len() == 0 {
        Seq::empty()
    } else {
        match chunks.last().content {
            ChunkContent::Gap(_) => Seq::empty(),
            ChunkContent::Items(events) => event_ids(events@.reverse()) + contiguous_suffix(
                chunks.drop_last(),
            ),
        }
    }
}

impl LiveTailSnapshotFence {
    /// Captures the cache as it stands.
    pub fn capture(state: &RoomEventCacheState) -> (fence: Self)
        ensures
            fence.gap_snapshot_id == state.gap_snapshot_id,
            fence.gap_topology_generation == state.gap_topology_generation,
            fence.newest_event_id == state.newest_event_id,
            texts(fence.contiguous_suffix_event_ids@) == contiguous_suffix(state.chunks@),
    {
        let mut ids: Vec<String> = Vec::new();
        let mut left: usize = state.chunks.len();
        proof {
            assert(state.chunks@.take(left as int) =~= state.chunks@);
            assert(texts(ids@) + contiguous_suffix(state.chunks@) =~= contiguous_suffix(
                state.chunks@,
            ));
        }
        while left > 0
            invariant_except_break
                texts(ids@) + contiguous_suffix(state.chunks@.take(left as int))
                    == contiguous_suffix(state.chunks@),
            invariant
                left <= state.chunks@.len(),
            ensures
                texts(ids@) == contiguous_suffix(state.chunks@),
            decreases left,
        {
            proof {
                assert(state.chunks@.take(left as int).drop_last() =~= state.chunks@.take(
                    left - 1,
                ));
            }
            match &state.chunks[left - 1].content {
                ChunkContent::Items(events) => {
                    let ghost before = texts(ids@);
                    push_ids_newest_first(&mut ids, events);
                    proof {
                        let rest = contiguous_suffix(state.chunks@.take(left - 1));
                        assert((before + event_ids(events@.reverse())) + rest =~= before + (
                        event_ids(events@.reverse()) + rest));
                    }
                },
                ChunkContent::Gap(_) => {
                    assert(texts(ids@) + Seq::<Seq<char>>::empty() =~= texts(ids@));
                    break ;
                },
            }
            left -= 1;
            assert(left == 0 ==> texts(ids@) + Seq::<Seq<char>>::empty() =~= texts(ids@));
        }
        LiveTailSnapshotFence {
            gap_snapshot_id: state.gap_snapshot_id,
            gap_topology_generation: state.gap_topology_generation,
            newest_event_id: state.newest_event_id.clone(),
            contiguous_suffix_event_ids: ids,
        }
    }

    /// Whether the cache is still the one that was captured.
    pub open spec fn is_current(self, state: RoomEventCacheState) -> bool {
        &&& self.gap_snapshot_id == state.gap_snapshot_id
        &&& self.gap_topology_generation == state.gap_topology_generation
        &&& opt_text(self.newest_event_id) == opt_text(state.newest_event_id)
    }

    /// Tells whether the cache is still the one that was captured.
    pub fn matches(&self, state: &RoomEventCacheState) -> (r: bool)
        ensures
            r == self.is_current(*state),
    {
        self.gap_snapshot_id == state.gap_snapshot_id && self.gap_topology_generation
            == state.gap_topology_generation && same_opt_text(
            &self.newest_event_id,
            &state.newest_event_id,
        )
    }
}

/// Appends the identifiers of a chunk's events, newest first.
fn push_ids_newest_first(ids: &mut Vec<String>, events: &Vec<Event>)
    ensures
        texts(final(ids)@) == texts(old(ids)@) + event_ids(events@.reverse()),
{
    let ghost before = texts(ids@);
    let ghost newest_first = events@.reverse();
    let ghost key = |e: Event| e.id();
    let mut left: usize = events.len();
    assert(texts(ids@) =~= before + newest_first.take(0).filter_map(key));
    while left > 0
        invariant
            left <= events@.len(),
            newest_first == events@.reverse(),
            key == (|e: Event| e.id()),
            texts(ids@) == before + newest_first.take(events@.len() - left).filter_map(key),
        decreases left,
    {
        let ghost done = events@.len() - left;
        left -= 1;
        proof {
            newest_first.lemma_filter_map_take_succ(key, done as int);
            assert(newest_first[done as int] == events@[left as int]);
        }
        if let Some(id) = &events[left].event_id {
            let ghost earlier = ids@;
            ids.push(id.clone());
            assert(texts(ids@) =~= texts(earlier).push(id@));
        }
        assert(texts(ids@) =~= before + newest_first.take(done + 1).filter_map(key));
    }
    assert(newest_first.take(events@.len() as int) =~= newest_first);
}

/// The identifiers of those events that have one, in order.
fn collect_ids(events: &[Event]) -> (ids: Vec<String>)
    ensures
        texts(ids@) == event_ids(events@),
{
    let mut ids: Vec<String> = Vec::new();
    let ghost key = |e: Event| e.id();
    let mut i: usize = 0;
    assert(texts(ids@) =~= events@.take(0).filter_map(key));
    while i < events.len()
        invariant
            i <= events@.len(),
            key == (|e: Event| e.id()),
            texts(ids@) == events@.take(i as int).filter_map(key),
        decreases events@.len() - i,
    {
        proof {
            events@.lemma_filter_map_take_succ(key, i as int);
        }
        if let Some(id) = &events[i].event_id {
            let ghost earlier = ids@;
            ids.push(id.clone());
            assert(texts(ids@) =~= texts(earlier).push(id@));
        }
        assert(texts(ids@) =~= events@.take(i + 1).filter_map(key));
        i += 1;
    }
    assert(events@.take(events@.len() as int) =~= events@);
    ids
}

/// How a page is reconciled with the cached suffix.
#[derive(Clone, Copy, Debug, PartialEq, Eq, Structural)]
pub enum LiveTailReconciliation {
    /// The cached suffix newer than a proven older anchor is replaced. The page is ordered newest
    /// to oldest and the anchor itself stays in place, so only the prefix before it is committed.
    Anchored {
        /// The number of events with an identifier in that prefix.
        response_prefix_len: usize,
    },
    /// The page did not reach an older event of the contiguous cached suffix. It becomes a
    /// detached tail, and its token becomes an explicit gap.
    Detached,
}

/// Whether `at` is the first position of the newest cached event in the page.
pub open spec fn is_newest_cached_index(
    cached: Seq<Seq<char>>,
    response: Seq<Seq<char>>,
    at: int,
) -> bool {
    &&& cached.len() > 0
    &&& 0 <= at < response.len()
    &&& response[at] == cached[0]
    &&& forall|j: int| 0 <= j < at ==> response[j] != cached[0]
}

/// Whether `at` is the position of the older anchor in the page: the oldest event of the page that
/// is cached behind the newest cached event, where the page holds that newest event before it.
pub open spec fn is_older_anchor(
    cached: Seq<Seq<char>>,
    response: Seq<Seq<char>>,
    at: int,
) -> bool {
    &&& 0 <= at < response.len()
    &&& cached.len() > 0
    &&& response.take(at).contains(cached[0])
    &&& cached.skip(1).contains(response[at])
    &&& forall|j: int| at < j < response.len() ==> !cached.skip(1).contains(#[trigger] response[j])
}

/// Whether `at` is the first position of the newest cached event, `None` where the page lacks it.
pub open spec fn finds_newest_cached(
    cached: Seq<Seq<char>>,
    response: Seq<Seq<char>>,
    at: Option<usize>,
) -> bool {
    match at {
        Some(i) => is_newest_cached_index(cached, response, i as int),
        None => forall|i: int| !#[trigger] is_newest_cached_index(cached, response, i),
    }
}

/// Whether `at` is the position of the older anchor, `None` where the page has none.
pub open spec fn finds_older_anchor(
    cached: Seq<Seq<char>>,
    response: Seq<Seq<char>>,
    at: Option<usize>,
) -> bool {
    match at {
        Some(i) => is_older_anchor(cached, response, i as int),
        None => forall|i: int| !#[trigger] is_older_anchor(cached, response, i),
    }
}

/// Whether a plan is the right one for a page.
pub open spec fn reconciles(
    cached: Seq<Seq<char>>,
    response: Seq<Seq<char>>,
    plan: LiveTailReconciliation,
) -> bool {
    match plan {
        LiveTailReconciliation::Anchored { response_prefix_len } => finds_older_anchor(
            cached,
            response,
            Some(response_prefix_len),
        ),
        LiveTailReconciliation::Detached => finds_older_anchor(cached, response, None),
    }
}

/// The position of the newest cached event in the page, and that of the older anchor.
pub fn live_tail_anchor_indices(
    cached_suffix_event_ids: &[String],
    response_event_ids: &[String],
) -> (r: (Option<usize>, Option<usize>))
    ensures
        finds_newest_cached(texts(cached_suffix_event_ids@), texts(response_event_ids@), r.0),
        finds_older_anchor(texts(cached_suffix_event_ids@), texts(response_event_ids@), r.1),
{
    let ghost cached = texts(cached_suffix_event_ids@);
    let ghost response = texts(response_event_ids@);
    if cached_suffix_event_ids.len() == 0 {
        return (None, None);
    }
    let newest = position_of(response_event_ids, cached_suffix_event_ids[0].as_str());
    let newest_index = match newest {
        None => {
            proof {
                assert forall|i: int| !#[trigger] is_newest_cached_index(cached, response, i) by {
                    if 0 <= i < response.len() {
                        assert(response_event_ids@[i]@ != cached[0]);
                    }
                }
                assert forall|i: int| !#[trigger] is_older_anchor(cached, response, i) by {
                    if 0 <= i < response.len() && response.take(i).contains(cached[0]) {
                        let j = choose|j: int|
                            0 <= j < i && response.take(i)[j] == cached[0];
                        assert(response_event_ids@[j]@ == cached[0]);
                    }
                }
            }
            return (None, None);
        },
        Some(index) => index,
    };
    proof {
        assert forall|j: int| 0 <= j < newest_index implies response[j] != cached[0] by {
            assert(response_event_ids@[j]@ != cached[0]);
        }
        assert(is_newest_cached_index(cached, response, newest_index as int));
    }
    let mut rest: Vec<String> = Vec::new();
    let mut k: usize = 1;
    while k < cached_suffix_event_ids.len()
        invariant
            1 <= k <= cached_suffix_event_ids@.len(),
            rest@ == cached_suffix_event_ids@.subrange(1, k as int),
        decreases cached_suffix_event_ids@.len() - k,
    {
        rest.push(cached_suffix_event_ids[k].clone());
        assert(rest@ =~= cached_suffix_event_ids@.subrange(1, k + 1));
        k += 1;
    }
    assert(texts(rest@) =~= cached.skip(1));
    let mut at: usize = response_event_ids.len();
    while at > newest_index + 1
        invariant
            newest_index < response.len(),
            at <= response.len(),
            newest_index + 1 <= at,
            cached.len() > 0,
            cached == texts(cached_suffix_event_ids@),
            response == texts(response_event_ids@),
            response[newest_index as int] == cached[0],
            is_newest_cached_index(cached, response, newest_index as int),
            texts(rest@) == cached.skip(1),
            forall|j: int|
                at <= j < response.len() ==> !cached.skip(1).contains(#[trigger] response[j]),
        decreases at,
    {
        at -= 1;
        if contains_text(&rest, response_event_ids[at].as_str()) {
            proof {
                assert(response.take(at as int)[newest_index as int] == cached[0]);
                assert(is_older_anchor(cached, response, at as int));
            }
            return (Some(newest_index), Some(at));
        }
        assert(!cached.skip(1).contains(response[at as int]));
    }
    proof {
        assert forall|i: int| !#[trigger] is_older_anchor(cached, response, i) by {
            if is_older_anchor(cached, response, i) {
                let j = choose|j: int| 0 <= j < i && response.take(i)[j] == cached[0];
                assert(response[j] == cached[0]);
                assert(i >= at);
                assert(!cached.skip(1).contains(response[i]));
            }
        }
    }
    (Some(newest_index), None)
}

/// Decides how a page is reconciled with the cached suffix.
pub fn plan_live_tail_reconciliation(
    cached_suffix_event_ids: &[String],
    response_event_ids: &[String],
) -> (plan: LiveTailReconciliation)
    ensures
        reconciles(texts(cached_suffix_event_ids@), texts(response_event_ids@), plan),
{
    let (_, older_anchor) = live_tail_anchor_indices(cached_suffix_event_ids, response_event_ids);
    match older_anchor {
        Some(response_prefix_len) => LiveTailReconciliation::Anchored { response_prefix_len },
        None => LiveTailReconciliation::Detached,
    }
}

/// The number of events of an anchored page that enter the timeline.
///
/// An event that stands only in the store is absent from the loaded chunks. It is not new, but it
/// loses its old position and enters the live suffix, so it counts.
pub fn anchored_materialized_event_count(
    response_event_count: usize,
    in_memory_duplicate_count: usize,
) -> (n: usize)
    ensures
        response_event_count >= in_memory_duplicate_count ==> n == response_event_count
            - in_memory_duplicate_count,
        response_event_count < in_memory_duplicate_count ==> n == 0,
{
    response_event_count.saturating_sub(in_memory_duplicate_count)
}

/// Counts that describe one refresh.
#[derive(Clone, Copy, Debug, PartialEq, Eq, Structural)]
pub struct RoomLiveTailRefreshDiagnostics {
    /// Events in the cached suffix.
    pub cached_suffix_events: usize,
    /// Events of the page that have an identifier.
    pub response_events_with_ids: usize,
    /// Where the page holds the newest cached event.
    pub newest_cached_response_index: Option<usize>,
    /// Where the page holds the older anchor.
    pub older_anchor_response_index: Option<usize>,
    /// Events of the page that were in memory.
    pub in_memory_duplicates: usize,
    /// Events of the page that were in the store only.
    pub in_store_duplicates: usize,
    /// Events of the page that were nowhere.
    pub new_events: usize,
}

impl Default for RoomLiveTailRefreshDiagnostics {
    fn default() -> (r: Self)
        ensures
            r == no_diagnostics(),
    {
        RoomLiveTailRefreshDiagnostics {
            cached_suffix_events: 0,
            response_events_with_ids: 0,
            newest_cached_response_index: None,
            older_anchor_response_index: None,
            in_memory_duplicates: 0,
            in_store_duplicates: 0,
            new_events: 0,
        }
    }
}

/// Diagnostics of a refresh that saw no page.
pub open spec fn no_diagnostics() -> RoomLiveTailRefreshDiagnostics {
    RoomLiveTailRefreshDiagnostics {
        cached_suffix_events: 0,
        response_events_with_ids: 0,
        newest_cached_response_index: None,
        older_anchor_response_index: None,
        in_memory_duplicates: 0,
        in_store_duplicates: 0,
        new_events: 0,
    }
}

/// How a refresh ended.
#[derive(Clone, Copy, Debug, PartialEq, Eq, Structural)]
pub enum RoomLiveTailRefreshOutcome {
    /// The room is gone.
    Failed,
    /// The request was cancelled before a page arrived.
    Cancelled,
    /// The cache changed while the page was on its way; nothing was committed.
    Stale,
    /// The timeline already holds the page.
    Unchanged,
    /// The suffix newer than the anchor was rebuilt.
    Advanced {
        /// Events that entered the timeline.
        events: usize,
    },
    /// The page became a detached tail.
    Detached {
        /// Events that were nowhere before.
        events: usize,
        /// Whether a gap was left before the page.
        historical_gap_remaining: bool,
    },
}

/// The result of a refresh.
#[derive(Clone, Copy, Debug, PartialEq, Eq, Structural)]
pub struct RoomLiveTailRefreshResult {
    /// How it ended.
    pub outcome: RoomLiveTailRefreshOutcome,
    /// The number of events in the page.
    pub returned_events: usize,
    /// Counts that describe it.
    pub diagnostics: RoomLiveTailRefreshDiagnostics,
    /// The last batch that was sent to the timeline.
    pub last_projection_batch: Option<u64>,
}

/// Identifies the repair on whose behalf a refresh runs.
#[derive(Clone, Copy, Debug, PartialEq, Eq, Structural)]
pub struct RoomTimelineGapProjectionId {
    /// The generation of the actor.
    pub actor_generation: u64,
    /// The generation of the repair.
    pub repair_generation: u64,
}

/// What the network phase of a refresh ended with.
#[derive(Debug)]
pub enum LiveTailReply {
    /// The room is gone.
    RoomGone,
    /// The caller cancelled the request.
    Cancelled,
    /// The request failed.
    Error(EventCacheError),
    /// A page arrived.
    Page(Messages),
}

/// A page that waits for the write lock of the cache.
#[derive(Debug)]
pub struct PendingLiveTail {
    /// The cache as it was before the request.
    pub fence: LiveTailSnapshotFence,
    /// The number of events in the page.
    pub returned_events: usize,
    /// The token before the page.
    pub end: Option<String>,
    /// How the page is reconciled.
    pub reconciliation: LiveTailReconciliation,
    /// The events to commit, newest first.
    pub events: Vec<Event>,
    /// The counts so far.
    pub diagnostics: RoomLiveTailRefreshDiagnostics,
}

/// What follows the network phase.
#[derive(Debug)]
pub enum LiveTailNext {
    /// The refresh is over.
    Finished(RoomLiveTailRefreshResult),
    /// The page is to be committed.
    Commit(PendingLiveTail),
}

/// A result without a page.
pub open spec fn result_without_page(
    outcome: RoomLiveTailRefreshOutcome,
) -> RoomLiveTailRefreshResult {
    RoomLiveTailRefreshResult {
        outcome,
        returned_events: 0,
        diagnostics: no_diagnostics(),
        last_projection_batch: None,
    }
}

/// Whether the event at `at` has an identifier, and exactly `count` events before it have one.
pub open spec fn follows_identified(events: Seq<Event>, count: int, at: int) -> bool {
    &&& 0 <= at < events.len()
    &&& events[at].id() is Some
    &&& event_ids(events.take(at)).len() == count
}

/// Whether `events` are those of a page that a plan commits: all before the anchor, which is counted
/// in events that have an identifier, or all where there is no anchor.
pub open spec fn are_committed(
    plan: LiveTailReconciliation,
    chunk: Seq<Event>,
    events: Seq<Event>,
) -> bool {
    match plan {
        LiveTailReconciliation::Anchored { response_prefix_len } => exists|at: int| #[trigger]
            follows_identified(chunk, response_prefix_len as int, at) && events == chunk.take(at),
        LiveTailReconciliation::Detached => events == chunk,
    }
}

proof fn following_event_has_the_next_id(events: Seq<Event>, count: int, at: int)
    requires
        follows_identified(events, count, at),
    ensures
        0 <= count < event_ids(events).len(),
        event_ids(events)[count] == events[at].id()->0,
    decreases events.len(),
{
    let key = |e: Event| e.id();
    let last = events.len() - 1;
    events.lemma_filter_map_take_succ(key, last as int);
    assert(events.take(last + 1) =~= events);
    if at < last {
        let rest = events.take(last as int);
        assert(rest.take(at) =~= events.take(at));
        following_event_has_the_next_id(rest, count, at);
    }
}

/// The position of the event that follows the given number of events with an identifier.
fn position_after_identified(events: &[Event], count: usize) -> (at: usize)
    requires
        count < event_ids(events@).len(),
    ensures
        follows_identified(events@, count as int, at as int),
{
    let ghost key = |e: Event| e.id();
    let mut seen: usize = 0;
    let mut at: usize = 0;
    assert(event_ids(events@.take(0)) =~= Seq::empty());
    while at < events.len()
        invariant
            at <= events@.len(),
            key == (|e: Event| e.id()),
            seen <= count,
            count < event_ids(events@).len(),
            event_ids(events@.take(at as int)).len() == seen,
        decreases events@.len() - at,
    {
        proof {
            events@.lemma_filter_map_take_succ(key, at as int);
        }
        if events[at].event_id.is_some() {
            if seen == count {
                return at;
            }
            seen += 1;
        }
        at += 1;
    }
    assert(events@.take(at as int) =~= events@);
    at
}

/// Whether `pending` is what a page becomes.
pub open spec fn is_pending_for(
    pending: PendingLiveTail,
    fence: LiveTailSnapshotFence,
    page: Messages,
) -> bool {
    let cached = texts(fence.contiguous_suffix_event_ids@);
    let response = event_ids(page.chunk@);
    &&& pending.fence == fence
    &&& pending.returned_events == page.chunk@.len()
    &&& pending.end == page.end
    &&& reconciles(cached, response, pending.reconciliation)
    &&& are_committed(pending.reconciliation, page.chunk@, pending.events@)
    &&& pending.diagnostics.cached_suffix_events == cached.len()
    &&& pending.diagnostics.response_events_with_ids == response.len()
    &&& finds_newest_cached(cached, response, pending.diagnostics.newest_cached_response_index)
    &&& finds_older_anchor(cached, response, pending.diagnostics.older_anchor_response_index)
    &&& pending.diagnostics.in_memory_duplicates == 0
    &&& pending.diagnostics.in_store_duplicates == 0
    &&& pending.diagnostics.new_events == 0
}

/// Whether the error says that a refresh asked for no event.
pub open spec fn is_limit_error(error: EventCacheError) -> bool {
    error matches EventCacheError::InvalidLinkedChunkMetadata { details } && details@
        == "live-tail refresh event limit must be greater than zero"@
}

/// Rejects a refresh that asks for no event.
pub fn check_live_tail_limit(event_limit: u16) -> (r: Result<(), EventCacheError>)
    ensures
        r is Ok <==> event_limit != 0,
        r matches Err(error) ==> is_limit_error(error),
{
    if event_limit == 0 {
        return Err(
            EventCacheError::InvalidLinkedChunkMetadata {
                details: "live-tail refresh event limit must be greater than zero".to_owned(),
            },
        );
    }
    Ok(())
}

impl RoomPagination {
    /// Refreshes the live tail without selecting a stored gap: decides what follows the network
    /// phase. A refresh that asks for no event is refused.
    pub fn refresh_live_tail_with_projection(
        event_limit: u16,
        fence: LiveTailSnapshotFence,
        reply: LiveTailReply,
    ) -> (r: Result<LiveTailNext, EventCacheError>)
        ensures
            event_limit == 0 ==> (r matches Err(error) && is_limit_error(error)),
            event_limit != 0 ==> match reply {
                LiveTailReply::RoomGone => r == Ok::<LiveTailNext, EventCacheError>(
                    LiveTailNext::Finished(result_without_page(RoomLiveTailRefreshOutcome::Failed)),
                ),
                LiveTailReply::Cancelled => r == Ok::<LiveTailNext, EventCacheError>(
                    LiveTailNext::Finished(
                        result_without_page(RoomLiveTailRefreshOutcome::Cancelled),
                    ),
                ),
                LiveTailReply::Error(error) => r == Err::<LiveTailNext, EventCacheError>(error),
                LiveTailReply::Page(page) => r matches Ok(LiveTailNext::Commit(pending))
                    && is_pending_for(pending, fence, page),
            },
    {
        if let Err(error) = check_live_tail_limit(event_limit) {
            return Err(error);
        }
        match reply {
            LiveTailReply::RoomGone => Ok(
                LiveTailNext::Finished(
                    RoomLiveTailRefreshResult {
                        outcome: RoomLiveTailRefreshOutcome::Failed,
                        returned_events: 0,
                        diagnostics: RoomLiveTailRefreshDiagnostics::default(),
                        last_projection_batch: None,
                    },
                ),
            ),
            LiveTailReply::Cancelled => Ok(
                LiveTailNext::Finished(
                    RoomLiveTailRefreshResult {
                        outcome: RoomLiveTailRefreshOutcome::Cancelled,
                        returned_events: 0,
                        diagnostics: RoomLiveTailRefreshDiagnostics::default(),
                        last_projection_batch: None,
                    },
                ),
            ),
            LiveTailReply::Error(error) => Err(error),
            LiveTailReply::Page(page) => Ok(
                LiveTailNext::Commit(PendingLiveTail::new(fence, page)),
            ),
        }
    }
}

/// What follows the fence check.
#[derive(Debug)]
pub enum LiveTailFenceCheck {
    /// The cache changed; the refresh is over.
    Stale(RoomLiveTailRefreshResult),
    /// The events are to be deduplicated against the cache.
    Deduplicate(PendingLiveTail),
}

/// The changes that a refresh makes to the cache, in this order: the duplicates are removed, and
/// then the events are pushed behind the gap.
#[derive(Debug)]
pub struct LiveTailMutation {
    /// Events to remove from the chunks in memory.
    pub remove_in_memory: Vec<String>,
    /// Events to remove from the store.
    pub remove_in_store: Vec<String>,
    /// The gap to push first.
    pub new_gap: Option<Gap>,
    /// The events to push, oldest first.
    pub chronological_events: Vec<Event>,
}

/// What follows the deduplication.
#[derive(Debug)]
pub enum LiveTailDecision {
    /// The cache stays as it is; the refresh is over.
    Unchanged(RoomLiveTailRefreshResult),
    /// The cache is to be changed. The result lacks the batch that the change gives.
    Mutate(LiveTailMutation, RoomLiveTailRefreshResult),
}

/// The outcome that a plan and the counts of a page lead to.
pub open spec fn live_tail_outcome(
    plan: LiveTailReconciliation,
    events: int,
    in_memory: int,
    in_store: int,
    historical_gap_remaining: bool,
) -> RoomLiveTailRefreshOutcome {
    match plan {
        LiveTailReconciliation::Anchored { .. } => if events <= in_memory {
            RoomLiveTailRefreshOutcome::Unchanged
        } else {
            RoomLiveTailRefreshOutcome::Advanced { events: (events - in_memory) as usize }
        },
        LiveTailReconciliation::Detached => RoomLiveTailRefreshOutcome::Detached {
            events: new_event_count(events, in_memory, in_store) as usize,
            historical_gap_remaining,
        },
    }
}

/// The events of a page that were nowhere.
pub open spec fn new_event_count(events: int, in_memory: int, in_store: int) -> int {
    if events <= in_memory + in_store {
        0
    } else {
        events - (in_memory + in_store)
    }
}

impl PendingLiveTail {
    /// Plans the commit of a page.
    pub fn new(fence: LiveTailSnapshotFence, page: Messages) -> (pending: Self)
        ensures
            is_pending_for(pending, fence, page),
    {
        let returned_events = page.chunk.len();
        let mut events = page.chunk;
        let response_event_ids = collect_ids(&events);
        let (newest_cached_response_index, older_anchor_response_index) = live_tail_anchor_indices(
            &fence.contiguous_suffix_event_ids,
            &response_event_ids,
        );
        let diagnostics = RoomLiveTailRefreshDiagnostics {
            cached_suffix_events: fence.contiguous_suffix_event_ids.len(),
            response_events_with_ids: response_event_ids.len(),
            newest_cached_response_index,
            older_anchor_response_index,
            in_memory_duplicates: 0,
            in_store_duplicates: 0,
            new_events: 0,
        };
        let reconciliation = plan_live_tail_reconciliation(
            &fence.contiguous_suffix_event_ids,
            &response_event_ids,
        );
        if let LiveTailReconciliation::Anchored { response_prefix_len } = reconciliation {
            let anchor_at = position_after_identified(&events, response_prefix_len);
            events.truncate(anchor_at);
            assert(follows_identified(page.chunk@, response_prefix_len as int, anchor_at as int));
            assert(events@ =~= page.chunk@.take(anchor_at as int));
        }
        PendingLiveTail {
            fence,
            returned_events,
            end: page.end,
            reconciliation,
            events,
            diagnostics,
        }
    }

    /// Holds the captured fence against the cache, once the write lock is there.
    pub fn check_fence(self, state: &RoomEventCacheState) -> (r: LiveTailFenceCheck)
        ensures
            self.fence.is_current(*state) ==> r == LiveTailFenceCheck::Deduplicate(self),
            !self.fence.is_current(*state) ==> r == LiveTailFenceCheck::Stale(
                RoomLiveTailRefreshResult {
                    outcome: RoomLiveTailRefreshOutcome::Stale,
                    returned_events: self.returned_events,
                    diagnostics: self.diagnostics,
                    last_projection_batch: None,
                },
            ),
    {
        if !self.fence.matches(state) {
            return LiveTailFenceCheck::Stale(
                RoomLiveTailRefreshResult {
                    outcome: RoomLiveTailRefreshOutcome::Stale,
                    returned_events: self.returned_events,
                    diagnostics: self.diagnostics,
                    last_projection_batch: None,
                },
            );
        }
        LiveTailFenceCheck::Deduplicate(self)
    }

    /// The result that a page leads to, before the batch is known.
    pub open spec fn result_for(self, found: DeduplicationOutcome) -> RoomLiveTailRefreshResult {
        let events = found.all_events@.len() as int;
        let in_memory = found.in_memory_duplicated_event_ids@.len() as int;
        let in_store = found.in_store_duplicated_event_ids@.len() as int;
        RoomLiveTailRefreshResult {
            outcome: live_tail_outcome(
                self.reconciliation,
                events,
                in_memory,
                in_store,
                self.end is Some,
            ),
            returned_events: self.returned_events,
            diagnostics: RoomLiveTailRefreshDiagnostics {
                in_memory_duplicates: in_memory as usize,
                in_store_duplicates: in_store as usize,
                new_events: new_event_count(events, in_memory, in_store) as usize,
                ..self.diagnostics
            },
            last_projection_batch: None,
        }
    }

    /// Decides what a deduplicated page changes.
    pub fn commit_live_tail_response(self, found: DeduplicationOutcome) -> (r: LiveTailDecision)
        requires
            found.in_memory_duplicated_event_ids@.len() + found.in_store_duplicated_event_ids@.len()
                <= usize::MAX,
        ensures
            r is Unchanged <==> self.reconciliation is Anchored && found.all_events@.len()
                <= found.in_memory_duplicated_event_ids@.len(),
            self.reconciliation is Anchored ==> (r matches LiveTailDecision::Mutate(_, result) ==> (
            result.outcome matches RoomLiveTailRefreshOutcome::Advanced { events } && events
                + found.in_memory_duplicated_event_ids@.len() == found.all_events@.len())),
            self.result_for(found).outcome is Unchanged ==> r == LiveTailDecision::Unchanged(
                self.result_for(found),
            ),
            !(self.result_for(found).outcome is Unchanged) ==> {
                &&& r matches LiveTailDecision::Mutate(mutation, result)
                &&& result == self.result_for(found)
                &&& mutation.remove_in_memory == found.in_memory_duplicated_event_ids
                &&& mutation.remove_in_store == found.in_store_duplicated_event_ids
                &&& mutation.chronological_events@ == found.all_events@.reverse()
                &&& match (self.reconciliation, self.end) {
                    (LiveTailReconciliation::Detached, Some(token)) => mutation.new_gap == Some(
                        (Gap { token }),
                    ),
                    _ => mutation.new_gap is None,
                }
            },
    {
        let in_memory_duplicate_count = found.in_memory_duplicated_event_ids.len();
        let in_store_duplicate_count = found.in_store_duplicated_event_ids.len();
        let duplicate_count = in_memory_duplicate_count + in_store_duplicate_count;
        let new_events = found.all_events.len().saturating_sub(duplicate_count);
        let materialized = anchored_materialized_event_count(
            found.all_events.len(),
            in_memory_duplicate_count,
        );
        let outcome = match self.reconciliation {
            LiveTailReconciliation::Anchored { .. } => if materialized == 0 {
                RoomLiveTailRefreshOutcome::Unchanged
            } else {
                RoomLiveTailRefreshOutcome::Advanced { events: materialized }
            },
            LiveTailReconciliation::Detached => RoomLiveTailRefreshOutcome::Detached {
                events: new_events,
                historical_gap_remaining: self.end.is_some(),
            },
        };
        let result = RoomLiveTailRefreshResult {
            outcome,
            returned_events: self.returned_events,
            diagnostics: RoomLiveTailRefreshDiagnostics {
                in_memory_duplicates: in_memory_duplicate_count,
                in_store_duplicates: in_store_duplicate_count,
                new_events,
                ..self.diagnostics
            },
            last_projection_batch: None,
        };
        if let RoomLiveTailRefreshOutcome::Unchanged = outcome {
            return LiveTailDecision::Unchanged(result);
        }
        let new_gap = match (self.reconciliation, self.end) {
            (LiveTailReconciliation::Detached, Some(token)) => Some(Gap { token }),
            _ => None,
        };
        LiveTailDecision::Mutate(
            LiveTailMutation {
                remove_in_memory: found.in_memory_duplicated_event_ids,
                remove_in_store: found.in_store_duplicated_event_ids,
                new_gap,
                chronological_events: reversed(&found.all_events),
            },
            result,
        )
    }
}

/// Completes a refresh after the cache was changed. Where the change gave diffs for the timeline,
/// the second part is the origin under which they are sent.
pub fn finish_live_tail_refresh(
    result: RoomLiveTailRefreshResult,
    projection: RoomTimelineGapProjectionId,
    has_timeline_diffs: bool,
) -> (r: (RoomLiveTailRefreshResult, Option<EventsOrigin>))
    ensures
        has_timeline_diffs ==> r.0 == (RoomLiveTailRefreshResult {
            last_projection_batch: Some(1u64),
            ..result
        }) && r.1 == Some(
            (EventsOrigin::GapRepair {
                actor_generation: projection.actor_generation,
                repair_generation: projection.repair_generation,
                projection_batch: 1,
            }),
        ),
        !has_timeline_diffs ==> r.0 == (RoomLiveTailRefreshResult {
            last_projection_batch: None,
            ..result
        }) && r.1 is None,
{
    if has_timeline_diffs {
        (
            RoomLiveTailRefreshResult { last_projection_batch: Some(1), ..result },
            Some(
                EventsOrigin::GapRepair {
                    actor_generation: projection.actor_generation,
                    repair_generation: projection.repair_generation,
                    projection_batch: 1,
                },
            ),
        )
    } else {
        (RoomLiveTailRefreshResult { last_projection_batch: None, ..result }, None)
    }
}

/// A page has at most one older anchor, so at most one plan is right for it.
pub proof fn reconciliation_is_unique(
    cached: Seq<Seq<char>>,
    response: Seq<Seq<char>>,
    one: LiveTailReconciliation,
    other: LiveTailReconciliation,
)
    requires
        reconciles(cached, response, one),
        reconciles(cached, response, other),
    ensures
        one == other,
{
    if let LiveTailReconciliation::Anchored { response_prefix_len: i } = one {
        if let LiveTailReconciliation::Anchored { response_prefix_len: j } = other {
            assert(i == j) by {
                if i < j {
                    assert(cached.skip(1).contains(response[j as int]));
                }
                if j < i {
                    assert(cached.skip(1).contains(response[i as int]));
                }
            }
        }
    }
}

/// A page that repeats the cached suffix is anchored at its oldest event.
pub proof fn matching_suffix_is_anchored_at_its_oldest_event(
    cached: Seq<Seq<char>>,
    plan: LiveTailReconciliation,
)
    requires
        2 <= cached.len(),
        reconciles(cached, cached, plan),
    ensures
        plan matches LiveTailReconciliation::Anchored { response_prefix_len }
            && response_prefix_len == cached.len() - 1,
{
    let last = cached.len() - 1;
    assert(cached.skip(1)[last - 1] == cached[last]);
    assert(cached.take(last)[0] == cached[0]);
    assert(is_older_anchor(cached, cached, last));
    if let LiveTailReconciliation::Anchored { response_prefix_len } = plan {
        if response_prefix_len < last {
            assert(!cached.skip(1).contains(cached[last]));
        }
    }
}

/// An anchored page keeps every event that it holds before the anchor, whether or not these have an
/// identifier: the newest cached event does not hide what lies between it and the anchor.
pub proof fn anchored_page_commits_all_events_before_the_anchor(
    pending: PendingLiveTail,
    fence: LiveTailSnapshotFence,
    page: Messages,
)
    requires
        is_pending_for(pending, fence, page),
    ensures
        pending.reconciliation is Anchored ==> {
            let anchor_at = pending.events@.len() as int;
            &&& anchor_at < page.chunk@.len()
            &&& pending.events@ == page.chunk@.take(anchor_at)
            &&& page.chunk@[anchor_at].id() is Some
            &&& texts(fence.contiguous_suffix_event_ids@).skip(1).contains(
                page.chunk@[anchor_at].id()->0,
            )
        },
{
    if let LiveTailReconciliation::Anchored { response_prefix_len } = pending.reconciliation {
        let at = choose|at: int| #[trigger]
            follows_identified(page.chunk@, response_prefix_len as int, at) && pending.events@
                == page.chunk@.take(at);
        following_event_has_the_next_id(page.chunk@, response_prefix_len as int, at);
    }
}

/// An anchored refresh leaves the cache as it is only where every event it keeps of the page is in
/// memory. Otherwise it reports as many events as were not in memory.
pub proof fn anchored_refresh_advances_by_what_was_not_in_memory(
    pending: PendingLiveTail,
    found: DeduplicationOutcome,
)
    requires
        pending.reconciliation is Anchored,
    ensures
        pending.result_for(found).outcome is Unchanged <==> found.all_events@.len()
            <= found.in_memory_duplicated_event_ids@.len(),
        found.all_events@.len() > found.in_memory_duplicated_event_ids@.len() ==> (
        pending.result_for(found).outcome matches RoomLiveTailRefreshOutcome::Advanced { events }
            && events + found.in_memory_duplicated_event_ids@.len() == found.all_events@.len()),
{
    assert(found.all_events.len() == found.all_events@.len());
}

/// What stands only in the store makes no difference to how an anchored refresh ends, nor does the
/// token of the page.
pub proof fn anchored_refresh_does_not_depend_on_the_store(
    one: PendingLiveTail,
    other: PendingLiveTail,
    found: DeduplicationOutcome,
    other_found: DeduplicationOutcome,
)
    requires
        one.reconciliation is Anchored,
        other.reconciliation is Anchored,
        found.all_events@.len() == other_found.all_events@.len(),
        found.in_memory_duplicated_event_ids@.len()
            == other_found.in_memory_duplicated_event_ids@.len(),
    ensures
        one.result_for(found).outcome == other.result_for(other_found).outcome,
{
}

/// A detached refresh always changes the cache. It reports the events that were neither in memory nor
/// in the store, and a gap exactly where the page has a token.
pub proof fn detached_refresh_reports_what_was_nowhere(
    pending: PendingLiveTail,
    found: DeduplicationOutcome,
)
    requires
        pending.reconciliation is Detached,
    ensures
        pending.result_for(found).outcome matches RoomLiveTailRefreshOutcome::Detached {
            events,
            historical_gap_remaining,
        } && (historical_gap_remaining <==> pending.end is Some) && {
            let known = found.in_memory_duplicated_event_ids@.len()
                + found.in_store_duplicated_event_ids@.len();
            &&& found.all_events@.len() >= known ==> events + known == found.all_events@.len()
            &&& found.all_events@.len() < known ==> events == 0
        },
{
    assert(found.all_events.len() == found.all_events@.len());
}

/// The counts of a refresh are those of the deduplication; what was counted before it stays.
pub proof fn refresh_counts_are_those_of_the_deduplication(
    pending: PendingLiveTail,
    found: DeduplicationOutcome,
)
    ensures
        ({
            let result = pending.result_for(found);
            let counts = result.diagnostics;
            let known = found.in_memory_duplicated_event_ids@.len()
                + found.in_store_duplicated_event_ids@.len();
            &&& counts.in_memory_duplicates == found.in_memory_duplicated_event_ids@.len()
            &&& counts.in_store_duplicates == found.in_store_duplicated_event_ids@.len()
            &&& found.all_events@.len() >= known ==> counts.new_events + known
                == found.all_events@.len()
            &&& found.all_events@.len() < known ==> counts.new_events == 0
            &&& counts.cached_suffix_events == pending.diagnostics.cached_suffix_events
            &&& counts.response_events_with_ids == pending.diagnostics.response_events_with_ids
            &&& counts.newest_cached_response_index
                == pending.diagnostics.newest_cached_response_index
            &&& counts.older_anchor_response_index
                == pending.diagnostics.older_anchor_response_index
            &&& result.returned_events == pending.returned_events
            &&& result.last_projection_batch is None
        }),
{
    assert(found.all_events.len() == found.all_events@.len());
    assert(found.in_memory_duplicated_event_ids.len()
        == found.in_memory_duplicated_event_ids@.len());
    assert(found.in_store_duplicated_event_ids.len()
        == found.in_store_duplicated_event_ids@.len());
}

/// A page is anchored exactly where it holds the newest cached event and, behind it, an older cached
/// one. The anchor is the last of these in the page.
pub proof fn page_is_anchored_at_its_last_older_cached_event(
    cached: Seq<Seq<char>>,
    response: Seq<Seq<char>>,
    plan: LiveTailReconciliation,
)
    requires
        reconciles(cached, response, plan),
        response.len() <= usize::MAX,
    ensures
        forall|newest: int, older: int, k: int|
            #![trigger response[newest], response[older], cached[k]]
            0 <= newest < older < response.len() && 0 < k < cached.len() && response[newest]
                == cached[0] && response[older] == cached[k] ==> (
            plan matches LiveTailReconciliation::Anchored { response_prefix_len } && older
                <= response_prefix_len),
        plan matches LiveTailReconciliation::Anchored { response_prefix_len } ==> {
            &&& 0 <= response_prefix_len < response.len()
            &&& exists|newest: int|
                0 <= newest < response_prefix_len && #[trigger] response[newest] == cached[0]
            &&& exists|k: int|
                0 < k < cached.len() && response[response_prefix_len as int] == #[trigger] cached[k]
        },
{
    assert forall|newest: int, older: int, k: int|
        #![trigger response[newest], response[older], cached[k]]
        0 <= newest < older < response.len() && 0 < k < cached.len() && response[newest]
            == cached[0] && response[older] == cached[k] implies (
    plan matches LiveTailReconciliation::Anchored { response_prefix_len } && older
        <= response_prefix_len) by {
        assert(cached.skip(1)[k - 1] == cached[k]);
        assert(response.take(older)[newest] == response[newest]);
        last_older_is_an_anchor(cached, response, newest, older, response.len() as int);
        if plan is Detached {
            let at = choose|at: int| older <= at && #[trigger] is_older_anchor(cached, response, at);
            assert(false);
        }
    }
    if let LiveTailReconciliation::Anchored { response_prefix_len } = plan {
        let n = response_prefix_len as int;
        let newest = choose|i: int| 0 <= i < n && response.take(n)[i] == cached[0];
        assert(response[newest] == cached[0]);
        let k = choose|k: int| 0 <= k < cached.skip(1).len() && cached.skip(1)[k] == response[n];
        assert(response[n] == cached[k + 1]);
    }
}

proof fn last_older_is_an_anchor(
    cached: Seq<Seq<char>>,
    response: Seq<Seq<char>>,
    newest: int,
    older: int,
    upto: int,
)
    requires
        0 <= newest < older < upto <= response.len(),
        0 < cached.len(),
        response[newest] == cached[0],
        cached.skip(1).contains(response[older]),
        forall|j: int| upto <= j < response.len() ==> !cached.skip(1).contains(#[trigger] response[j]),
    ensures
        exists|at: int| older <= at && #[trigger] is_older_anchor(cached, response, at),
    decreases upto - older,
{
    let last = upto - 1;
    if cached.skip(1).contains(response[last]) {
        assert(response.take(last)[newest] == cached[0]);
        assert(is_older_anchor(cached, response, last));
    } else {
        last_older_is_an_anchor(cached, response, newest, older, last);
    }
}

/// Where a page is anchored, no event behind the anchor is an older cached one.
pub proof fn nothing_behind_the_anchor_is_cached(
    pending: PendingLiveTail,
    fence: LiveTailSnapshotFence,
    page: Messages,
    later: int,
    k: int,
)
    requires
        is_pending_for(pending, fence, page),
        pending.reconciliation is Anchored,
        pending.events@.len() < later < page.chunk@.len(),
        0 < k < fence.contiguous_suffix_event_ids@.len(),
    ensures
        page.chunk@[later].event_id matches Some(id) ==> id@
            != fence.contiguous_suffix_event_ids@[k]@,
{
    if let LiveTailReconciliation::Anchored { response_prefix_len } = pending.reconciliation {
        let chunk = page.chunk@;
        let n = response_prefix_len as int;
        let cached = texts(fence.contiguous_suffix_event_ids@);
        let at = choose|at: int| #[trigger]
            follows_identified(chunk, n, at) && pending.events@ == chunk.take(at);
        if chunk[later].event_id is Some {
            let count = event_ids(chunk.take(later)).len() as int;
            identified_before_grow(chunk, at, later);
            assert(follows_identified(chunk, count, later));
            following_event_has_the_next_id(chunk, count, later);
            assert(!cached.skip(1).contains(event_ids(chunk)[count]));
            assert(cached.skip(1)[k - 1] == cached[k]);
        }
    }
}

proof fn identified_before_grow(events: Seq<Event>, at: int, later: int)
    requires
        0 <= at < later <= events.len(),
        events[at].id() is Some,
    ensures
        event_ids(events.take(at)).len() < event_ids(events.take(later)).len(),
    decreases later - at,
{
    let key = |e: Event| e.id();
    events.lemma_filter_map_take_succ(key, later - 1);
    if at < later - 1 {
        identified_before_grow(events, at, later - 1);
    }
}

/// The captured suffix starts with the newest event in memory that has an identifier, and ends at the
/// newest gap: putting a chunk behind the others puts the identifiers of its events first, newest
/// first, and a gap hides all that lies before it.
pub proof fn captured_suffix_grows_with_the_newest_chunk(chunks: Seq<Chunk>, newest: Chunk)
    ensures
        newest.content is Gap ==> contiguous_suffix(chunks.push(newest)).len() == 0,
        newest.content matches ChunkContent::Items(events) ==> {
            &&& events@.len() == 0 ==> contiguous_suffix(chunks.push(newest)) == contiguous_suffix(
                chunks,
            )
            &&& events@.len() > 0 && events@.last().event_id is Some ==> contiguous_suffix(
                chunks.push(newest),
            ).len() > 0 && contiguous_suffix(chunks.push(newest))[0]
                == events@.last().event_id->0@
        },
{
    assert(chunks.push(newest).drop_last() =~= chunks);
    if let ChunkContent::Items(events) = newest.content {
        let key = |e: Event| e.id();
        let reversed_events = events@.reverse();
        if events@.len() == 0 {
            assert(reversed_events =~= Seq::empty());
            assert(event_ids(reversed_events) =~= Seq::empty());
            assert(event_ids(reversed_events) + contiguous_suffix(chunks) =~= contiguous_suffix(
                chunks,
            ));
        } else if events@.last().event_id is Some {
            assert(reversed_events[0] == events@.last());
            assert(event_ids(reversed_events.take(0)) =~= Seq::empty());
            assert(follows_identified(reversed_events, 0, 0)) by {
                assert(reversed_events.take(0) =~= Seq::<Event>::empty());
            }
            following_event_has_the_next_id(reversed_events, 0, 0);
        }
    }
}

/// A captured cache is stale as soon as its gaps, where they stand, or its newest event differ.
pub proof fn fence_is_passed_only_by_the_same_cache(
    fence: LiveTailSnapshotFence,
    state: RoomEventCacheState,
)
    ensures
        fence.gap_snapshot_id != state.gap_snapshot_id ==> !fence.is_current(state),
        fence.gap_topology_generation != state.gap_topology_generation ==> !fence.is_current(state),
        fence.newest_event_id is Some != state.newest_event_id is Some ==> !fence.is_current(state),
        fence.newest_event_id is Some && state.newest_event_id is Some
            && fence.newest_event_id->0@ != state.newest_event_id->0@ ==> !fence.is_current(state),
        fence.gap_snapshot_id == state.gap_snapshot_id && fence.gap_topology_generation
            == state.gap_topology_generation && fence.newest_event_id == state.newest_event_id
            ==> fence.is_current(state),
{
}

/// One more event at the end of the newest chunk comes first in the captured suffix where it has an
/// identifier, and makes no difference where it has none.
pub proof fn captured_suffix_grows_with_the_newest_event(
    chunks: Seq<Chunk>,
    newest: Chunk,
    longer: Chunk,
    event: Event,
)
    requires
        newest.content is Items,
        longer.content is Items,
        longer.content->Items_0@ == newest.content->Items_0@.push(event),
    ensures
        event.event_id matches Some(id) ==> contiguous_suffix(chunks.push(longer)) == seq![id@]
            + contiguous_suffix(chunks.push(newest)),
        event.event_id is None ==> contiguous_suffix(chunks.push(longer)) == contiguous_suffix(
            chunks.push(newest),
        ),
{
    let events = newest.content->Items_0@;
    let more = longer.content->Items_0@;
    assert(chunks.push(newest).drop_last() =~= chunks);
    assert(chunks.push(longer).drop_last() =~= chunks);
    assert(more.reverse() =~= seq![event] + events.reverse());
    ids_of_joined_events(seq![event], events.reverse());
    identifiers_grow_with_the_events(Seq::empty(), event);
    assert(Seq::<Event>::empty().push(event) =~= seq![event]);
    if event.event_id is Some {
        assert(event_ids(seq![event]) =~= seq![event.event_id->0@]);
        assert(contiguous_suffix(chunks.push(longer)) =~= seq![event.event_id->0@]
            + contiguous_suffix(chunks.push(newest)));
    } else {
        assert(event_ids(seq![event]) =~= Seq::empty());
        assert(contiguous_suffix(chunks.push(longer)) =~= contiguous_suffix(chunks.push(newest)));
    }
}

proof fn ids_of_joined_events(one: Seq<Event>, other: Seq<Event>)
    ensures
        event_ids(one + other) == event_ids(one) + event_ids(other),
    decreases other.len(),
{
    if other.len() == 0 {
        assert(one + other =~= one);
        assert(event_ids(other) =~= Seq::empty());
        assert(event_ids(one) + event_ids(other) =~= event_ids(one));
    } else {
        let rest = other.drop_last();
        ids_of_joined_events(one, rest);
        assert((one + rest).push(other.last()) =~= one + other);
        assert(rest.push(other.last()) =~= other);
        identifiers_grow_with_the_events(one + rest, other.last());
        identifiers_grow_with_the_events(rest, other.last());
        assert(event_ids(one + other) =~= event_ids(one) + event_ids(other));
    }
}

/// The newest cached event is looked for from the start of the page: the first place counts, and it is
/// found wherever the page holds it.
pub proof fn newest_cached_event_is_found_at_its_first_place(
    cached: Seq<Seq<char>>,
    response: Seq<Seq<char>>,
    at: Option<usize>,
    i: int,
)
    requires
        finds_newest_cached(cached, response, at),
        cached.len() > 0,
        0 <= i < response.len(),
        response.len() <= usize::MAX,
        response[i] == cached[0],
    ensures
        at matches Some(found) && found <= i && response[found as int] == cached[0] && forall|j: int|
            0 <= j < found ==> #[trigger] response[j] != cached[0],
    decreases i,
{
    if at is None {
        assert(!is_newest_cached_index(cached, response, i));
        let j = choose|j: int| 0 <= j < i && response[j] == cached[0];
        newest_cached_event_is_found_at_its_first_place(cached, response, at, j);
    }
}

/// What a page leaves to commit: the counts are those of the cached suffix and of the page, and nothing
/// is counted of the deduplication yet. A page that is not anchored is committed whole.
pub proof fn pending_page_is_described_as_it_came(
    pending: PendingLiveTail,
    fence: LiveTailSnapshotFence,
    page: Messages,
)
    requires
        is_pending_for(pending, fence, page),
    ensures
        pending.fence == fence,
        pending.end == page.end,
        pending.returned_events == page.chunk@.len(),
        pending.diagnostics.cached_suffix_events == fence.contiguous_suffix_event_ids@.len(),
        pending.diagnostics.response_events_with_ids == event_ids(page.chunk@).len(),
        pending.diagnostics.in_memory_duplicates == 0,
        pending.diagnostics.in_store_duplicates == 0,
        pending.diagnostics.new_events == 0,
        pending.reconciliation is Detached ==> pending.events@ == page.chunk@,
        pending.reconciliation matches LiveTailReconciliation::Anchored { response_prefix_len }
            ==> pending.diagnostics.older_anchor_response_index == Some(response_prefix_len),
        pending.reconciliation is Detached ==> pending.diagnostics.older_anchor_response_index
            is None,
{
    let cached = texts(fence.contiguous_suffix_event_ids@);
    let response = event_ids(page.chunk@);
    if let LiveTailReconciliation::Anchored { response_prefix_len } = pending.reconciliation {
        if let Some(at) = pending.diagnostics.older_anchor_response_index {
            if at < response_prefix_len {
                assert(!cached.skip(1).contains(response[response_prefix_len as int]));
            }
            if response_prefix_len < at {
                assert(!cached.skip(1).contains(response[at as int]));
            }
        } else {
            assert(!is_older_anchor(cached, response, response_prefix_len as int));
        }
    } else {
        if let Some(at) = pending.diagnostics.older_anchor_response_index {
            assert(!is_older_anchor(cached, response, at as int));
        }
    }
}

/// A refresh that took no page counts nothing, and keeps its outcome.
pub proof fn refresh_without_a_page_counts_nothing(outcome: RoomLiveTailRefreshOutcome)
    ensures
        ({
            let result = result_without_page(outcome);
            &&& result.outcome == outcome
            &&& result.returned_events == 0
            &&& result.last_projection_batch is None
            &&& result.diagnostics.cached_suffix_events == 0
            &&& result.diagnostics.response_events_with_ids == 0
            &&& result.diagnostics.newest_cached_response_index is None
            &&& result.diagnostics.older_anchor_response_index is None
            &&& result.diagnostics.in_memory_duplicates == 0
            &&& result.diagnostics.in_store_duplicates == 0
            &&& result.diagnostics.new_events == 0
        }),
{
}

/// The place that a pending page reports for the newest cached event is the first one among the
/// identifiers of the page, and none is reported exactly where the page does not hold that event.
pub proof fn pending_page_reports_where_the_newest_cached_event_stands(
    pending: PendingLiveTail,
    fence: LiveTailSnapshotFence,
    page: Messages,
    i: int,
)
    requires
        is_pending_for(pending, fence, page),
        0 <= i < event_ids(page.chunk@).len(),
        event_ids(page.chunk@).len() <= usize::MAX,
    ensures
        fence.contiguous_suffix_event_ids@.len() > 0 && event_ids(page.chunk@)[i]
            == fence.contiguous_suffix_event_ids@[0]@ ==> (
        pending.diagnostics.newest_cached_response_index matches Some(found) && found <= i),
        pending.diagnostics.newest_cached_response_index matches Some(found) ==> {
            &&& fence.contiguous_suffix_event_ids@.len() > 0
            &&& found < event_ids(page.chunk@).len()
            &&& event_ids(page.chunk@)[found as int] == fence.contiguous_suffix_event_ids@[0]@
        },
{
    let cached = texts(fence.contiguous_suffix_event_ids@);
    let response = event_ids(page.chunk@);
    if cached.len() > 0 && response[i] == cached[0] {
        newest_cached_event_is_found_at_its_first_place(
            cached,
            response,
            pending.diagnostics.newest_cached_response_index,
            i,
        );
    }
}

} // verus!
