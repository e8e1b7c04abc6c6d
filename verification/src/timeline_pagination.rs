//! Paginating a timeline, and restoring a live timeline from the cache.

use vstd::prelude::*;

use crate::room_cache::EventCacheError;
use crate::room_pagination::{BackPaginationOutcome, CacheOnlyBackOutcome, PaginationStatus};
use crate::text::{contains_text, opt_text, texts};

verus! {

/// Whether a text is an event identifier.
pub uninterp spec fn is_event_id(text: Seq<char>) -> bool;

/// Reads an event identifier with `ruma::EventId::parse`, which keeps the text as it is. The contract
/// names the texts that it takes; of those without a colon, they are the ones that start with a
/// dollar sign. What may follow a colon is left unsaid.
#[verifier::external_body]
fn parse_event_id(text: &str) -> (r: Option<String>)
    ensures
        r is Some == is_event_id(text@),
        r matches Some(id) ==> id@ == text@,
        !text@.contains(':') ==> (r is Some == (text@.len() > 0 && text@[0] == '$')),
{
    ruma::EventId::parse(text).ok().map(|id| id.as_str().to_owned())
}

/// What a timeline shows.
#[derive(Debug)]
pub enum TimelineFocusKind {
    /// The newest events of a room.
    Live,
    /// The events around one of them.
    Event {
        /// The event.
        focused_event_id: String,
    },
    /// A thread.
    Thread {
        /// The root of the thread.
        root_event_id: String,
    },
    /// The pinned events of a room.
    PinnedEvents,
}

/// Why a timeline cannot be paginated.
#[derive(Debug)]
pub enum PaginationError {
    /// What the timeline shows has no such pagination.
    NotSupported,
    /// The cache of the focused event is missing.
    MissingCache,
    /// An error of the event cache.
    EventCache(EventCacheError),
}

/// An error of a timeline.
#[derive(Debug)]
pub enum TimelineError {
    /// A pagination failed.
    PaginationError(PaginationError),
    /// An error of the event cache.
    EventCacheError(EventCacheError),
}

/// What a pagination does.
#[derive(Clone, Copy, Debug, PartialEq, Eq, Structural)]
pub enum PaginationPlan {
    /// Nothing is left to do; the value tells whether the end was hit.
    Done(bool),
    /// The room is paginated by this many events.
    Room(u16),
    /// The cache around the focused event is paginated by this many events.
    FocusedEvent(u16),
    /// The thread is paginated by this many events.
    Thread(u16),
}

/// What one page means for a live pagination.
#[derive(Debug)]
pub enum LivePaginationStep {
    /// The pagination is over. Where the start was hit, it is marked in the timeline first.
    Finished(Result<bool, TimelineError>),
    /// The page was empty, and another one is wanted.
    Again,
}

/// Outcome of a restore from the cache only.
#[derive(Clone, Copy, Debug, PartialEq, Eq, Structural)]
pub struct RestoreFromCacheOutcome {
    /// Total number of events loaded from the store.
    pub events_loaded: usize,
    /// Number of chunks read from the store.
    pub chunks_loaded: usize,
    /// How often hidden rows in memory were revealed.
    pub lazy_reveal_batches: usize,
    /// Whether the anchor was found: among the visible events, in a loaded chunk, or, once the start
    /// was reached, among the events of the cache. Then it is in the timeline or on its way there,
    /// and the caller waits for it. Where it was not found and the start was reached, the cache does
    /// not hold it, and the caller ends at once.
    pub anchor_present: bool,
    /// Whether the start of the stored timeline was reached.
    pub reached_start: bool,
    /// Whether a gap was met before enough events were loaded.
    pub hit_gap: bool,
}

/// A restore that waits for the hidden rows in memory to be revealed.
#[derive(Debug)]
pub struct RestoreReveal {
    /// The number of events to reveal.
    pub num_events: u16,
    /// The anchor, where it is an event identifier.
    pub anchor: Option<String>,
}

/// A restore that waits for chunks from the store.
#[derive(Debug)]
pub struct RestoreLoad {
    /// The number of events to load.
    pub num_events: u16,
    /// The anchor, where it is an event identifier.
    pub anchor: Option<String>,
    /// How often hidden rows in memory were revealed.
    pub lazy_reveal_batches: usize,
}

/// What follows the reveal.
#[derive(Debug)]
pub enum RestoreNext {
    /// The restore is over.
    Finished(RestoreFromCacheOutcome),
    /// Events are to be loaded from the store.
    Load(RestoreLoad),
}

/// A timeline.
#[derive(Debug)]
pub struct Timeline {
    /// What it shows.
    pub focus: TimelineFocusKind,
}

/// The outcome of a restore that loaded nothing from the store.
pub open spec fn restored_from_memory(
    did_reveal: bool,
    anchor_present: bool,
) -> RestoreFromCacheOutcome {
    RestoreFromCacheOutcome {
        events_loaded: 0,
        chunks_loaded: 0,
        lazy_reveal_batches: if did_reveal {
            1
        } else {
            0
        },
        anchor_present,
        reached_start: false,
        hit_gap: false,
    }
}

/// The outcome of a restore that loaded chunks from the store. `anchor_in_cache` tells whether the
/// anchor is an event of the cache.
pub open spec fn restored_from_store(
    lazy_reveal_batches: usize,
    anchor_in_cache: bool,
    load: CacheOnlyBackOutcome,
) -> RestoreFromCacheOutcome {
    RestoreFromCacheOutcome {
        events_loaded: load.events_loaded,
        chunks_loaded: load.chunks_loaded,
        lazy_reveal_batches,
        anchor_present: load.anchor_present || (load.reached_start && anchor_in_cache),
        reached_start: load.reached_start,
        hit_gap: load.hit_gap,
    }
}

impl Timeline {
    /// Adds more events to the start of the timeline. A live timeline first reveals hidden rows in
    /// memory: `still_needed` is the number of events that this left to load, `None` where it was
    /// enough.
    pub fn paginate_backwards(&self, num_events: u16, still_needed: Option<usize>) -> (r: Result<
        PaginationPlan,
        TimelineError,
    >)
        requires
            self.focus is Live ==> (still_needed matches Some(needed) ==> needed <= u16::MAX),
        ensures
            match self.focus {
                TimelineFocusKind::Live => r == Ok::<PaginationPlan, TimelineError>(
                    match still_needed {
                        Some(needed) => PaginationPlan::Room(needed as u16),
                        None => PaginationPlan::Done(false),
                    },
                ),
                TimelineFocusKind::Event { .. } => r == Ok::<PaginationPlan, TimelineError>(
                    PaginationPlan::FocusedEvent(num_events),
                ),
                TimelineFocusKind::Thread { .. } => r == Ok::<PaginationPlan, TimelineError>(
                    PaginationPlan::Thread(num_events),
                ),
                TimelineFocusKind::PinnedEvents => r == Err::<PaginationPlan, TimelineError>(
                    TimelineError::PaginationError(PaginationError::NotSupported),
                ),
            },
    {
        match &self.focus {
            TimelineFocusKind::Live => match still_needed {
                Some(needed) => Ok(PaginationPlan::Room(needed as u16)),
                None => Ok(PaginationPlan::Done(false)),
            },
            TimelineFocusKind::Event { .. } => Ok(PaginationPlan::FocusedEvent(num_events)),
            TimelineFocusKind::Thread { .. } => Ok(PaginationPlan::Thread(num_events)),
            TimelineFocusKind::PinnedEvents => Err(
                TimelineError::PaginationError(PaginationError::NotSupported),
            ),
        }
    }

    /// Adds more events to the end of the timeline. A live timeline has nothing behind its end.
    pub fn paginate_forwards(&self, num_events: u16) -> (r: Result<PaginationPlan, TimelineError>)
        ensures
            match self.focus {
                TimelineFocusKind::Live => r == Ok::<PaginationPlan, TimelineError>(
                    PaginationPlan::Done(true),
                ),
                TimelineFocusKind::Event { .. } => r == Ok::<PaginationPlan, TimelineError>(
                    PaginationPlan::FocusedEvent(num_events),
                ),
                _ => r == Err::<PaginationPlan, TimelineError>(
                    TimelineError::PaginationError(PaginationError::NotSupported),
                ),
            },
    {
        match &self.focus {
            TimelineFocusKind::Live => Ok(PaginationPlan::Done(true)),
            TimelineFocusKind::Event { .. } => Ok(PaginationPlan::FocusedEvent(num_events)),
            _ => Err(TimelineError::PaginationError(PaginationError::NotSupported)),
        }
    }

    /// Ends the pagination around a focused event. The cache could not be looked up, is missing, or
    /// was paginated with an error or with whether the end was hit.
    pub fn conclude_focused_event(
        paginated: Result<Option<Result<bool, EventCacheError>>, EventCacheError>,
    ) -> (r: Result<bool, TimelineError>)
        ensures
            r == match paginated {
                Err(error) => Err(TimelineError::EventCacheError(error)),
                Ok(None) => Err(TimelineError::PaginationError(PaginationError::MissingCache)),
                Ok(Some(Err(error))) => Err(TimelineError::EventCacheError(error)),
                Ok(Some(Ok(hit_end))) => Ok(hit_end),
            },
    {
        match paginated {
            Err(error) => Err(TimelineError::EventCacheError(error)),
            Ok(None) => Err(TimelineError::PaginationError(PaginationError::MissingCache)),
            Ok(Some(Err(error))) => Err(TimelineError::EventCacheError(error)),
            Ok(Some(Ok(hit_end))) => Ok(hit_end),
        }
    }

    /// Ends the pagination of a thread. The thread could not be looked up, or was paginated with an
    /// error or with whether the start was reached.
    pub fn conclude_thread(paginated: Result<Result<bool, EventCacheError>, EventCacheError>) -> (r:
        Result<bool, TimelineError>)
        ensures
            r == match paginated {
                Err(error) => Err(
                    TimelineError::PaginationError(PaginationError::EventCache(error)),
                ),
                Ok(Err(error)) => Err(TimelineError::EventCacheError(error)),
                Ok(Ok(reached_start)) => Ok(reached_start),
            },
    {
        match paginated {
            Err(error) => Err(TimelineError::PaginationError(PaginationError::EventCache(error))),
            Ok(Err(error)) => Err(TimelineError::EventCacheError(error)),
            Ok(Ok(reached_start)) => Ok(reached_start),
        }
    }

    /// Takes in one page of a live pagination. An empty page is no end, unless the start was
    /// reached.
    pub fn live_paginate_backwards(page: Result<BackPaginationOutcome, EventCacheError>) -> (r:
        LivePaginationStep)
        ensures
            r == live_step(page),
    {
        match page {
            Ok(outcome) => {
                if outcome.reached_start {
                    return LivePaginationStep::Finished(Ok(true));
                }
                if outcome.events.len() > 0 {
                    return LivePaginationStep::Finished(Ok(false));
                }
                LivePaginationStep::Again
            },
            Err(error) => LivePaginationStep::Finished(
                Err(TimelineError::EventCacheError(error)),
            ),
        }
    }

    /// Starts to restore up to `n` events of a live timeline from the cache only, without the
    /// network. An anchor that is no event identifier counts as absent.
    pub fn live_restore_from_cache(&self, n: u16, anchor_event_id: &str) -> (r: Result<
        RestoreReveal,
        TimelineError,
    >)
        ensures
            match self.focus {
                TimelineFocusKind::Live => r matches Ok(reveal) && reveal.num_events == n
                    && opt_text(reveal.anchor) == (if is_event_id(anchor_event_id@) {
                    Some(anchor_event_id@)
                } else {
                    None
                }),
                _ => r == Err::<RestoreReveal, TimelineError>(
                    TimelineError::PaginationError(PaginationError::NotSupported),
                ),
            },
            self.focus is Live && !anchor_event_id@.contains(':') ==> (r->Ok_0.anchor is Some
                <==> anchor_event_id@.len() > 0 && anchor_event_id@[0] == '$'),
    {
        match &self.focus {
            TimelineFocusKind::Live => {
                let anchor = parse_event_id(anchor_event_id);
                Ok(RestoreReveal { num_events: n, anchor })
            },
            _ => Err(TimelineError::PaginationError(PaginationError::NotSupported)),
        }
    }

    /// The status of the live timeline's back-pagination: `None` where the timeline is not live.
    pub fn live_back_pagination_status(&self, current: PaginationStatus) -> (r: Option<
        (PaginationStatus, BackPaginationStatusStream),
    >)
        ensures
            match self.focus {
                TimelineFocusKind::Live => r matches Some(pair) && pair.0 == current
                    && pair.1.last is None,
                _ => r is None,
            },
    {
        match &self.focus {
            TimelineFocusKind::Live => Some((current, BackPaginationStatusStream { last: None })),
            _ => None,
        }
    }
}

/// What one page means for a live pagination.
pub open spec fn live_step(page: Result<BackPaginationOutcome, EventCacheError>) -> LivePaginationStep {
    match page {
        Ok(outcome) => if outcome.reached_start {
            LivePaginationStep::Finished(Ok(true))
        } else if outcome.events@.len() > 0 {
            LivePaginationStep::Finished(Ok(false))
        } else {
            LivePaginationStep::Again
        },
        Err(error) => LivePaginationStep::Finished(Err(TimelineError::EventCacheError(error))),
    }
}

/// What a live pagination ends with that sees the given pages; `None` where it wants more.
pub open spec fn live_run(pages: Seq<Result<BackPaginationOutcome, EventCacheError>>) -> Option<
    Result<bool, TimelineError>,
>
    decreases pages.len(),
{
    if pages.len() == 0 {
        None
    } else {
        match live_step(pages[0]) {
            LivePaginationStep::Finished(result) => Some(result),
            LivePaginationStep::Again => live_run(pages.drop_first()),
        }
    }
}

/// A live pagination that ends without an error has seen events, or the start of the timeline: it
/// says that the start was hit if and only if the page that ended it reached the start.
pub proof fn live_pagination_makes_progress(
    pages: Seq<Result<BackPaginationOutcome, EventCacheError>>,
)
    ensures
        live_run(pages) matches Some(Ok(hit_start)) ==> exists|i: int|
            0 <= i < pages.len() && #[trigger] ends_pagination(pages[i], hit_start),
    decreases pages.len(),
{
    if pages.len() > 0 {
        let rest = pages.drop_first();
        live_pagination_makes_progress(rest);
        if let Some(Ok(hit_start)) = live_run(pages) {
            if live_step(pages[0]) is Again {
                let i = choose|i: int|
                    0 <= i < rest.len() && #[trigger] ends_pagination(rest[i], hit_start);
                assert(ends_pagination(pages[i + 1], hit_start));
            } else {
                assert(ends_pagination(pages[0], hit_start));
            }
        }
    }
}

/// Whether a page ends a live pagination, with or without the start.
pub open spec fn ends_pagination(
    page: Result<BackPaginationOutcome, EventCacheError>,
    hit_start: bool,
) -> bool {
    page matches Ok(outcome) && outcome.reached_start == hit_start && (hit_start
        || outcome.events@.len() > 0)
}

impl RestoreReveal {
    /// Takes in the reveal: whether it changed what is visible, how many events it left to load,
    /// `None` where it was enough, and the events that are visible now. An anchor that is visible
    /// ends the restore, so that nothing is loaded in vain.
    pub fn revealed(
        self,
        did_reveal: bool,
        needs: Option<usize>,
        visible_event_ids: &[String],
    ) -> (r: RestoreNext)
        ensures
            ({
                let anchor_in_memory = self.anchor is Some && texts(visible_event_ids@).contains(
                    self.anchor->0@,
                );
                match needs {
                    Some(count) => if anchor_in_memory {
                        r == RestoreNext::Finished(restored_from_memory(did_reveal, true))
                    } else {
                        r == RestoreNext::Load(
                            RestoreLoad {
                                num_events: if count <= u16::MAX {
                                    count as u16
                                } else {
                                    u16::MAX
                                },
                                anchor: self.anchor,
                                lazy_reveal_batches: if did_reveal {
                                    1
                                } else {
                                    0
                                },
                            },
                        )
                    },
                    None => r == RestoreNext::Finished(
                        restored_from_memory(did_reveal, anchor_in_memory),
                    ),
                }
            }),
    {
        let lazy_reveal_batches: usize = if did_reveal {
            1
        } else {
            0
        };
        let anchor_in_memory = match &self.anchor {
            Some(id) => contains_text(visible_event_ids, id.as_str()),
            None => false,
        };
        let needs = match needs {
            Some(needs) => needs,
            None => {
                return RestoreNext::Finished(
                    RestoreFromCacheOutcome {
                        events_loaded: 0,
                        chunks_loaded: 0,
                        lazy_reveal_batches,
                        anchor_present: anchor_in_memory,
                        reached_start: false,
                        hit_gap: false,
                    },
                );
            },
        };
        if anchor_in_memory {
            return RestoreNext::Finished(
                RestoreFromCacheOutcome {
                    events_loaded: 0,
                    chunks_loaded: 0,
                    lazy_reveal_batches,
                    anchor_present: true,
                    reached_start: false,
                    hit_gap: false,
                },
            );
        }
        let num_events: u16 = if needs <= u16::MAX as usize {
            needs as u16
        } else {
            u16::MAX
        };
        RestoreNext::Load(RestoreLoad { num_events, anchor: self.anchor, lazy_reveal_batches })
    }
}

impl RestoreLoad {
    /// Ends the restore with what was loaded from the store. `anchor_in_cache` tells whether, after
    /// the load, any event of the cache has the identifier of the anchor. Where the start was
    /// reached, all events of the cache are in memory, and this settles whether the anchor will
    /// arrive: it may have been in memory before the load, and not yet be in the timeline.
    pub fn loaded(
        self,
        load: Result<CacheOnlyBackOutcome, EventCacheError>,
        anchor_in_cache: bool,
    ) -> (r: Result<RestoreFromCacheOutcome, TimelineError>)
        ensures
            r == match load {
                Ok(outcome) => Ok(
                    restored_from_store(
                        self.lazy_reveal_batches,
                        self.anchor is Some && anchor_in_cache,
                        outcome,
                    ),
                ),
                Err(error) => Err(TimelineError::EventCacheError(error)),
            },
    {
        let outcome = match load {
            Ok(outcome) => outcome,
            Err(error) => {
                return Err(TimelineError::EventCacheError(error));
            },
        };
        let arrives = outcome.reached_start && self.anchor.is_some() && anchor_in_cache;
        Ok(
            RestoreFromCacheOutcome {
                events_loaded: outcome.events_loaded,
                chunks_loaded: outcome.chunks_loaded,
                lazy_reveal_batches: self.lazy_reveal_batches,
                anchor_present: outcome.anchor_present || arrives,
                reached_start: outcome.reached_start,
                hit_gap: outcome.hit_gap,
            },
        )
    }
}

/// A restore never says both that a gap was met and that the start was reached, nor that a gap was
/// met and the anchor found. Where it says that the start was reached, it says that the anchor was
/// found exactly if a loaded chunk or the cache holds it: without the anchor, the restore is over.
/// This holds of every load whose own flags are consistent.
pub proof fn restore_flags_are_consistent(
    lazy_reveal_batches: usize,
    anchor_in_cache: bool,
    load: CacheOnlyBackOutcome,
)
    requires
        !(load.hit_gap && load.reached_start),
        !(load.hit_gap && load.anchor_present),
    ensures
        ({
            let outcome = restored_from_store(lazy_reveal_batches, anchor_in_cache, load);
            &&& !(outcome.hit_gap && outcome.reached_start)
            &&& !(outcome.hit_gap && outcome.anchor_present)
            &&& outcome.reached_start ==> (outcome.anchor_present <==> load.anchor_present
                || anchor_in_cache)
        }),
{
}

/// The statuses of a back-pagination as they are shown: repetitions are left out.
#[derive(Debug)]
pub struct BackPaginationStatusStream {
    /// The last status that was taken.
    pub last: Option<PaginationStatus>,
}

impl BackPaginationStatusStream {
    /// Takes in a status, and gives it on unless it repeats the last one.
    pub fn next(&mut self, status: PaginationStatus) -> (r: Option<PaginationStatus>)
        ensures
            final(self).last == Some(status),
            r == if old(self).last == Some(status) {
                None
            } else {
                Some(status)
            },
    {
        let repeated = match self.last {
            Some(last) => last == status,
            None => false,
        };
        self.last = Some(status);
        if repeated {
            None
        } else {
            Some(status)
        }
    }

    /// Tells whether a status that is shown puts the start of the timeline in first.
    pub fn inserts_timeline_start(shown: PaginationStatus) -> (r: bool)
        ensures
            r == (shown == PaginationStatus::Idle { hit_timeline_start: true }),
    {
        match shown {
            PaginationStatus::Idle { hit_timeline_start } => hit_timeline_start,
            PaginationStatus::Paginating => false,
        }
    }
}

/// A page ends a live pagination exactly where it failed, reached the start, or brought events. The
/// start counts as hit exactly where it was reached, with or without events.
pub proof fn page_ends_a_live_pagination_unless_it_is_empty(
    page: Result<BackPaginationOutcome, EventCacheError>,
)
    ensures
        page matches Err(error) ==> live_step(page) == LivePaginationStep::Finished(
            Err(TimelineError::EventCacheError(error)),
        ),
        page matches Ok(outcome) ==> {
            &&& live_step(page) is Again <==> !outcome.reached_start && outcome.events@.len() == 0
            &&& live_step(page) matches LivePaginationStep::Finished(result) ==> result == Ok::<
                bool,
                TimelineError,
            >(outcome.reached_start)
        },
{
}

/// The first page that is not empty, or that reached the start, or failed, decides how a live
/// pagination ends; what would come after it makes no difference. Empty pages alone do not end it.
pub proof fn first_page_that_is_not_empty_ends_a_live_pagination(
    pages: Seq<Result<BackPaginationOutcome, EventCacheError>>,
    i: int,
)
    requires
        0 <= i <= pages.len(),
        forall|j: int|
            0 <= j < i ==> (#[trigger] pages[j]) is Ok && !pages[j]->Ok_0.reached_start
                && pages[j]->Ok_0.events@.len() == 0,
    ensures
        i == pages.len() ==> live_run(pages) is None,
        i < pages.len() && pages[i] is Err ==> live_run(pages) == Some(
            Err::<bool, TimelineError>(TimelineError::EventCacheError(pages[i]->Err_0)),
        ),
        i < pages.len() && pages[i] is Ok && (pages[i]->Ok_0.reached_start
            || pages[i]->Ok_0.events@.len() > 0) ==> live_run(pages) == Some(
            Ok::<bool, TimelineError>(pages[i]->Ok_0.reached_start),
        ),
    decreases i,
{
    if i > 0 {
        let rest = pages.drop_first();
        assert forall|j: int| 0 <= j < i - 1 implies (#[trigger] rest[j]) is Ok
            && !rest[j]->Ok_0.reached_start && rest[j]->Ok_0.events@.len() == 0 by {
            assert(rest[j] == pages[j + 1]);
        }
        assert(pages[0] is Ok);
        first_page_that_is_not_empty_ends_a_live_pagination(rest, i - 1);
        if i < pages.len() {
            assert(rest[i - 1] == pages[i]);
        }
    }
}

/// A restore that finds the anchor, or enough events, in memory loads nothing, and tells whether rows
/// were revealed.
pub proof fn restore_from_memory_loads_nothing(did_reveal: bool, anchor_present: bool)
    ensures
        ({
            let outcome = restored_from_memory(did_reveal, anchor_present);
            &&& outcome.events_loaded == 0
            &&& outcome.chunks_loaded == 0
            &&& did_reveal ==> outcome.lazy_reveal_batches == 1
            &&& !did_reveal ==> outcome.lazy_reveal_batches == 0
            &&& outcome.anchor_present == anchor_present
            &&& !outcome.reached_start
            &&& !outcome.hit_gap
        }),
{
}

/// A restore from the store reports what was loaded. The anchor counts as found where a loaded chunk
/// holds it; once the start was reached, also where the cache does.
pub proof fn restore_from_the_store_reports_what_was_loaded(
    lazy_reveal_batches: usize,
    anchor_in_cache: bool,
    load: CacheOnlyBackOutcome,
)
    ensures
        ({
            let outcome = restored_from_store(lazy_reveal_batches, anchor_in_cache, load);
            &&& outcome.events_loaded == load.events_loaded
            &&& outcome.chunks_loaded == load.chunks_loaded
            &&& outcome.lazy_reveal_batches == lazy_reveal_batches
            &&& outcome.reached_start == load.reached_start
            &&& outcome.hit_gap == load.hit_gap
            &&& load.anchor_present ==> outcome.anchor_present
            &&& !load.anchor_present ==> (outcome.anchor_present <==> load.reached_start
                && anchor_in_cache)
        }),
{
}

} // verus!
