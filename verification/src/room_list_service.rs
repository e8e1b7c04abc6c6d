//! The room list service: what it asks of the server, and what each sync iteration changes.

use vstd::prelude::*;
use vstd::string::*;

use crate::all_rooms::{
    no_response, rooms_after, AllRoomsObservedIds, AllRoomsObservedIdsObservable,
    CommittedAllRoomsResponse, CommittedAllRoomsResponseObservable,
};
use crate::keyed::{set_of_texts_holds_those_of_the_list, text_set, IdSet, KeyedList};
use crate::room_cache::EventCacheError;
use crate::room_list::{
    range_loading, resets_on, visible_view, DynamicEntriesEvent, RangeLoading, Room, RoomList,
    RoomListLoadingState, RoomListRangeLoadingState, SlidingSyncListInfo,
    SlidingSyncListLoadingState, State,
};
use crate::room_subscriptions::{
    addition_rooms, additions_are_subscribed, additions_for, baseline_of,
    checkpoints_carry_their_response, collect_room_subscription_checkpoints,
    last_addition_of_a_room_is_retained, next_generation,
    subscribed_room_carries_what_is_newer_than_its_baseline, with_additions, CheckpointAddition, RoomSubscriptionCheckpoint, RoomSubscriptionGeneration,
    RoomSubscriptionIteration, RoomSubscriptionState, RoomSubscriptions,
    RoomTimelineSyncObservation,
};
use crate::text::same_text;

verus! {

/// The name of the list of all rooms.
pub const ALL_ROOMS_LIST_NAME: &'static str = "all_rooms";

/// The default connection of the room list service.
pub const DEFAULT_CONNECTION_ID: &'static str = "room-list";

/// The default number of timeline events of a room in the list.
pub const DEFAULT_LIST_TIMELINE_LIMIT: u32 = 1;

/// The default number of timeline events of a subscribed room.
pub const DEFAULT_ROOM_SUBSCRIPTION_TIMELINE_LIMIT: u32 = 20;

/// The types of state events that the service asks for.
#[derive(Clone, Copy, Debug, PartialEq, Eq, Structural)]
pub enum StateEventType {
    /// The name of a room.
    RoomName,
    /// The encryption of a room.
    RoomEncryption,
    /// A member of a room.
    RoomMember,
    /// The topic of a room.
    RoomTopic,
    /// The avatar of a room.
    RoomAvatar,
    /// The canonical alias of a room.
    RoomCanonicalAlias,
    /// The power levels in a room.
    RoomPowerLevels,
    /// A member of a call.
    CallMember,
    /// The join rules of a room.
    RoomJoinRules,
    /// The tombstone of a room.
    RoomTombstone,
    /// The creation of a room.
    RoomCreate,
    /// The visibility of a room's history.
    RoomHistoryVisibility,
    /// Hints about the members of a room.
    MemberHints,
    /// A parent space.
    SpaceParent,
    /// A child of a space.
    SpaceChild,
    /// A live location.
    BeaconInfo,
    /// The pinned events of a room.
    RoomPinnedEvents,
}

/// State events by type and key.
pub open spec fn state_views<'a>(state: Seq<(StateEventType, &'a str)>) -> Seq<
    (StateEventType, Seq<char>),
> {
    state.map_values(|entry: (StateEventType, &'a str)| (entry.0, entry.1@))
}

/// State events by type and key.
pub open spec fn owned_state_views(state: Seq<(StateEventType, String)>) -> Seq<
    (StateEventType, Seq<char>),
> {
    state.map_values(|entry: (StateEventType, String)| (entry.0, entry.1@))
}

/// The state events that are asked for of every room.
pub open spec fn default_state() -> Seq<(StateEventType, Seq<char>)> {
    seq![
        (StateEventType::RoomName, ""@),
        (StateEventType::RoomEncryption, ""@),
        (StateEventType::RoomMember, "$LAZY"@),
        (StateEventType::RoomMember, "$ME"@),
        (StateEventType::RoomTopic, ""@),
        (StateEventType::RoomAvatar, ""@),
        (StateEventType::RoomCanonicalAlias, ""@),
        (StateEventType::RoomPowerLevels, ""@),
        (StateEventType::CallMember, "*"@),
        (StateEventType::RoomJoinRules, ""@),
        (StateEventType::RoomTombstone, ""@),
        (StateEventType::RoomCreate, ""@),
        (StateEventType::RoomHistoryVisibility, ""@),
        (StateEventType::MemberHints, ""@),
        (StateEventType::SpaceParent, "*"@),
        (StateEventType::SpaceChild, "*"@),
        (StateEventType::BeaconInfo, "*"@),
    ]
}

/// The state events that are asked for of every room.
pub fn default_required_state() -> (r: Vec<(StateEventType, &'static str)>)
    ensures
        state_views(r@) == default_state(),
{
    let r = vec![
        (StateEventType::RoomName, ""),
        (StateEventType::RoomEncryption, ""),
        (StateEventType::RoomMember, "$LAZY"),
        (StateEventType::RoomMember, "$ME"),
        (StateEventType::RoomTopic, ""),
        (StateEventType::RoomAvatar, ""),
        (StateEventType::RoomCanonicalAlias, ""),
        (StateEventType::RoomPowerLevels, ""),
        (StateEventType::CallMember, "*"),
        (StateEventType::RoomJoinRules, ""),
        (StateEventType::RoomTombstone, ""),
        (StateEventType::RoomCreate, ""),
        (StateEventType::RoomHistoryVisibility, ""),
        (StateEventType::MemberHints, ""),
        (StateEventType::SpaceParent, "*"),
        (StateEventType::SpaceChild, "*"),
        (StateEventType::BeaconInfo, "*"),
    ];
    assert(state_views(r@) =~= default_state());
    r
}

/// A state event as it is asked for on behalf of a user: the key that stands for the user is
/// replaced in membership events, where the user is known.
pub open spec fn state_for_user(
    entry: (StateEventType, Seq<char>),
    own_user_id: Option<Seq<char>>,
) -> (StateEventType, Seq<char>) {
    if entry.0 == StateEventType::RoomMember && entry.1 == "$ME"@ && own_user_id is Some {
        (entry.0, own_user_id->0)
    } else {
        entry
    }
}

/// The characters of a borrowed optional text.
pub open spec fn opt_str(text: Option<&str>) -> Option<Seq<char>> {
    match text {
        Some(s) => Some(s@),
        None => None,
    }
}

/// The state events to ask for on behalf of a user.
pub open spec fn states_for_user(
    state: Seq<(StateEventType, Seq<char>)>,
    own_user_id: Option<Seq<char>>,
) -> Seq<(StateEventType, Seq<char>)> {
    state.map_values(|entry: (StateEventType, Seq<char>)| state_for_user(entry, own_user_id))
}

/// The state events to ask for on behalf of a user. A user's own identifier means the same as the
/// placeholder `$ME` in membership events, and servers that do not expand the placeholder take it
/// too. Without a user the placeholder stays.
pub fn required_state_for_user(
    required_state: &[(StateEventType, &str)],
    own_user_id: Option<&str>,
) -> (r: Vec<(StateEventType, String)>)
    ensures
        owned_state_views(r@) == states_for_user(state_views(required_state@), opt_str(own_user_id)),
{
    let mut r: Vec<(StateEventType, String)> = Vec::new();
    let ghost user = opt_str(own_user_id);
    let ghost wanted = states_for_user(state_views(required_state@), user);
    let mut i: usize = 0;
    while i < required_state.len()
        invariant
            i <= required_state@.len(),
            user == opt_str(own_user_id),
            wanted == states_for_user(state_views(required_state@), user),
            owned_state_views(r@) == wanted.take(i as int),
        decreases required_state@.len() - i,
    {
        let (state_event, value) = required_state[i];
        let ghost earlier = r@;
        let key = match own_user_id {
            Some(user_id) => if state_event == StateEventType::RoomMember && same_text(
                value,
                "$ME",
            ) {
                user_id.to_owned()
            } else {
                value.to_owned()
            },
            None => value.to_owned(),
        };
        r.push((state_event, key));
        proof {
            assert(wanted[i as int] == (state_event, key@));
            assert(owned_state_views(r@) =~= owned_state_views(earlier).push((state_event, key@)));
            assert(wanted.take(i + 1) =~= wanted.take(i as int).push(wanted[i as int]));
        }
        i += 1;
    }
    assert(wanted.take(i as int) =~= wanted);
    r
}

/// Only the placeholder of a membership event is replaced; every other entry stays as it is, and so
/// do all of them without a user.
pub proof fn only_the_own_membership_is_expanded(
    state: Seq<(StateEventType, Seq<char>)>,
    user: Seq<char>,
    i: int,
)
    requires
        0 <= i < state.len(),
    ensures
        states_for_user(state, None) == state,
        states_for_user(state, Some(user))[i] == (if state[i] == (
            StateEventType::RoomMember,
            "$ME"@,
        ) {
            (StateEventType::RoomMember, user)
        } else {
            state[i]
        }),
{
    assert(states_for_user(state, None) =~= state);
}

/// What the service asks of the server.
#[derive(Debug)]
pub struct RoomListRequest {
    /// The connection.
    pub connection_id: String,
    /// Whether the position is shared with other processes.
    pub share_pos: bool,
    /// Whether account data is wanted.
    pub account_data: bool,
    /// Whether receipts are wanted, of all subscribed rooms.
    pub receipts_of_all_subscribed: bool,
    /// Whether typing notices are wanted.
    pub typing: bool,
    /// How many thread subscriptions are wanted at once, where they are wanted at all.
    pub thread_subscriptions_limit: Option<u64>,
    /// The name of the list.
    pub list_name: String,
    /// Whether the list is kept in the cache, and restored from it.
    pub cached: bool,
    /// The first rooms of the list that are wanted, from the one to the other.
    pub range: (u32, u32),
    /// The number of timeline events of each room.
    pub timeline_limit: u32,
    /// The state events of each room.
    pub required_state: Vec<(StateEventType, String)>,
    /// Which rooms are wanted: only invited ones, no invited ones, or both.
    pub is_invite: Option<bool>,
}

/// How long a server may wait before it answers a poll.
#[derive(Clone, Copy, Debug, PartialEq, Eq, Structural)]
pub enum PollTimeout {
    /// As long as it usually does.
    Default,
    /// This many seconds.
    Seconds(u32),
}

/// How long a server may wait in a state: as long as usual once all rooms are loaded, and not at
/// all before.
pub open spec fn poll_timeout(state: State, is_fully_loaded: bool) -> PollTimeout {
    if state is Running && is_fully_loaded {
        PollTimeout::Default
    } else {
        PollTimeout::Seconds(0)
    }
}

/// How long a server may wait in a state.
pub fn requires_timeout(state: &State, is_fully_loaded: bool) -> (r: PollTimeout)
    ensures
        r == poll_timeout(*state, is_fully_loaded),
{
    match state {
        State::Running => if is_fully_loaded {
            PollTimeout::Default
        } else {
            PollTimeout::Seconds(0)
        },
        _ => PollTimeout::Seconds(0),
    }
}

/// What a room subscription asks of the server.
#[derive(Debug)]
pub struct RoomSubscriptionSettings {
    /// The state events.
    pub required_state: Vec<(StateEventType, String)>,
    /// The number of timeline events.
    pub timeline_limit: u32,
}

/// The state events that are asked for of a subscribed room.
pub open spec fn subscription_state(own_user_id: Option<Seq<char>>) -> Seq<
    (StateEventType, Seq<char>),
> {
    states_for_user(default_state(), own_user_id).push((StateEventType::RoomPinnedEvents, ""@))
}

/// An error of the room list.
#[derive(Debug)]
pub enum Error {
    /// An error of sliding sync.
    SlidingSync(String),
    /// An operation was requested on an unknown list.
    UnknownList(String),
    /// The requested room does not exist.
    RoomNotFound(String),
    /// An error of the event cache.
    EventCache(EventCacheError),
}

impl Error {
    /// The text that describes the error.
    pub open spec fn text(self) -> Seq<char> {
        match self {
            Error::SlidingSync(reason) => reason@,
            Error::UnknownList(name) => "Unknown list `"@ + name@ + "`"@,
            Error::RoomNotFound(room_id) => "Room `"@ + room_id@ + "` not found"@,
            Error::EventCache(error) => error.text(),
        }
    }

    /// Describes the error.
    pub fn message(&self) -> (r: String)
        ensures
            r@ == self.text(),
    {
        match self {
            Error::SlidingSync(reason) => reason.clone(),
            Error::UnknownList(name) => {
                let mut text = "Unknown list `".to_owned();
                text.append(name.as_str());
                text.append("`");
                text
            },
            Error::RoomNotFound(room_id) => {
                let mut text = "Room `".to_owned();
                text.append(room_id.as_str());
                text.append("` not found");
                text
            },
            Error::EventCache(error) => error.message(),
        }
    }
}

/// Whether the user is told that a sync runs.
#[derive(Clone, Copy, Debug, PartialEq, Eq, Structural)]
pub enum SyncIndicator {
    /// Show the sync indicator.
    Show,
    /// Hide the sync indicator.
    Hide,
}

/// The indicator of a state.
pub open spec fn indicator_of(state: State) -> SyncIndicator {
    if state is SettingUp || state is Error {
        SyncIndicator::Show
    } else {
        SyncIndicator::Hide
    }
}

/// The indicator over time. It starts hidden. It follows the state only once the state has lasted
/// for the delay of the indicator, so that it does not blink.
#[derive(Debug)]
pub struct SyncIndicatorStream<D> {
    delay_before_showing: D,
    delay_before_hiding: D,
    current_state: State,
}

/// What the stream of indicators waits for.
#[derive(Debug)]
pub enum IndicatorWait<D> {
    /// A new state, for no longer than the delay.
    StateOrDelay(D),
    /// A new state.
    State,
    /// Nothing: the stream has ended.
    Ended,
}

impl<D: Copy> SyncIndicatorStream<D> {
    /// The state that the stream has seen last.
    pub closed spec fn seen(self) -> State {
        self.current_state
    }

    /// How long a state has to last before its indicator is given.
    pub closed spec fn delay_of(self, indicator: SyncIndicator) -> D {
        match indicator {
            SyncIndicator::Show => self.delay_before_showing,
            SyncIndicator::Hide => self.delay_before_hiding,
        }
    }

    /// Starts a stream. The parts of the result are the stream, the first indicator, and what to
    /// wait for.
    pub fn new(current_state: State, delay_before_showing: D, delay_before_hiding: D) -> (r: (
        Self,
        SyncIndicator,
        IndicatorWait<D>,
    ))
        ensures
            r.0.seen() == current_state,
            r.0.delay_of(SyncIndicator::Show) == delay_before_showing,
            r.0.delay_of(SyncIndicator::Hide) == delay_before_hiding,
            r.1 == SyncIndicator::Hide,
            r.2 == IndicatorWait::StateOrDelay(r.0.delay_of(indicator_of(current_state))),
    {
        let stream = SyncIndicatorStream {
            delay_before_showing,
            delay_before_hiding,
            current_state,
        };
        let (_, delay) = stream.indicator();
        (stream, SyncIndicator::Hide, IndicatorWait::StateOrDelay(delay))
    }

    fn indicator(&self) -> (r: (SyncIndicator, D))
        ensures
            r.0 == indicator_of(self.seen()),
            r.1 == self.delay_of(indicator_of(self.seen())),
    {
        match &self.current_state {
            State::SettingUp => (SyncIndicator::Show, self.delay_before_showing),
            State::Error { .. } => (SyncIndicator::Show, self.delay_before_showing),
            _ => (SyncIndicator::Hide, self.delay_before_hiding),
        }
    }

    /// The delay has passed without a new state. The parts of the result are the indicator to
    /// give, and what to wait for.
    pub fn on_delay(&self) -> (r: (SyncIndicator, IndicatorWait<D>))
        ensures
            r.0 == indicator_of(self.seen()),
            r.1 == IndicatorWait::<D>::State,
    {
        let (indicator, _) = self.indicator();
        (indicator, IndicatorWait::State)
    }

    /// A new state has come, or `None` where there will be no more. No indicator is given for the
    /// state before. The result is what to wait for.
    pub fn on_state(&mut self, next_state: Option<State>) -> (r: IndicatorWait<D>)
        ensures
            forall|i: SyncIndicator| #[trigger] final(self).delay_of(i) == old(self).delay_of(i),
            match next_state {
                Some(state) => {
                    &&& final(self).seen() == state
                    &&& r == IndicatorWait::StateOrDelay(old(self).delay_of(indicator_of(state)))
                },
                None => {
                    &&& final(self).seen() == old(self).seen()
                    &&& r == IndicatorWait::<D>::Ended
                },
            },
    {
        match next_state {
            Some(state) => {
                self.current_state = state;
                let (_, delay) = self.indicator();
                IndicatorWait::StateOrDelay(delay)
            },
            None => IndicatorWait::Ended,
        }
    }
}

/// What a sync gave.
#[derive(Debug)]
pub struct UpdateSummary {
    /// The rooms that were updated, each with the latest observation of its timeline.
    pub rooms: Vec<CheckpointAddition>,
    /// The rooms that the response named.
    pub rooms_from_response: Vec<String>,
    /// The list of all rooms after the response, where it exists.
    pub all_rooms_list: Option<SlidingSyncListInfo>,
}

/// How a sync ended.
#[derive(Debug)]
pub enum SyncResult {
    /// A response was committed.
    Updated(UpdateSummary),
    /// The sync failed.
    Failed(String),
    /// The sync was stopped.
    Ended,
}

/// What follows from a sync. The checkpoints and the visible rooms are published before the
/// evidence of the response.
#[derive(Debug)]
pub struct SyncStep {
    /// Whether the checkpoints changed.
    pub checkpoints_changed: bool,
    /// Whether the visible rooms changed.
    pub visible_changed: bool,
    /// The evidence to publish.
    pub committed: Option<CommittedAllRoomsResponse>,
    /// What the stream yields.
    pub yielded: Option<Result<(), Error>>,
    /// Whether the stream goes on.
    pub continues: bool,
}

/// The room list service.
pub struct RoomListService {
    state: State,
    subscriptions: RoomSubscriptions,
    committed: CommittedAllRoomsResponseObservable,
    observed: AllRoomsObservedIdsObservable,
}

/// Whether a state starts a new cycle of loading all rooms.
pub open spec fn starts_cycle(state: State) -> bool {
    state is SettingUp || state is Recovering
}

/// Whether a request on its way is cancelled when the subscribed rooms change.
pub open spec fn cancels_in_flight_request(state: State) -> bool {
    state is SettingUp || state is Running
}

/// The evidence of the response that follows.
pub open spec fn next_response(
    before: CommittedAllRoomsResponse,
    list: SlidingSyncListInfo,
    state: State,
) -> CommittedAllRoomsResponse {
    CommittedAllRoomsResponse {
        sequence: (before.sequence + 1) as u64,
        range_fully_loaded: range_loading(list.state, state)
            == RoomListRangeLoadingState::FullyLoaded,
        pos_present: true,
    }
}

impl RoomListService {
    /// The current state.
    pub closed spec fn current_state(self) -> State {
        self.state
    }

    /// The subscribed rooms.
    pub closed spec fn subscribed(self) -> RoomSubscriptions {
        self.subscriptions
    }

    /// The evidence of the last committed response.
    pub closed spec fn evidence(self) -> CommittedAllRoomsResponse {
        self.committed@
    }

    /// The rooms that responses have named.
    pub closed spec fn named(self) -> AllRoomsObservedIdsObservable {
        self.observed
    }

    /// The rooms that own the list go with the last committed response. Every checkpoint is one of
    /// a subscribed room, of the current set of subscriptions, and of a committed response.
    pub open spec fn wf(self) -> bool {
        &&& self.subscribed().wf()
        &&& self.named().wf()
        &&& match self.named().observed() {
            Some(observed) => {
                &&& observed.response_sequence == self.evidence().sequence
                &&& observed.range_fully_loaded == self.evidence().range_fully_loaded
                &&& self.evidence().pos_present
                &&& self.evidence().sequence > 0
            },
            None => self.evidence() == no_response(),
        }
        &&& forall|room: Seq<char>| #[trigger]
            self.subscribed().retained().contains_key(room) ==> self.is_sound_checkpoint(
                room,
                self.subscribed().retained()[room],
            )
    }

    /// Whether a checkpoint may be kept for a room.
    pub open spec fn is_sound_checkpoint(
        self,
        room: Seq<char>,
        checkpoint: RoomSubscriptionCheckpoint,
    ) -> bool {
        &&& checkpoint.room_id@ == room
        &&& self.subscribed().active_rooms().contains(room)
        &&& checkpoint.subscription_generation.0 == self.subscribed().generation()
        &&& 0 < checkpoint.response_sequence <= self.evidence().sequence
    }

    /// A service that has not synced yet.
    pub fn new() -> (r: Self)
        ensures
            r.wf(),
            r.current_state() is Init,
            r.evidence() == no_response(),
            r.named().observed() is None,
            !r.named().is_new_cycle(),
            r.subscribed().generation() == 0,
            r.subscribed().active_rooms() == Set::<Seq<char>>::empty(),
            r.subscribed().retained() == Map::<Seq<char>, RoomSubscriptionCheckpoint>::empty(),
    {
        RoomListService {
            state: State::Init,
            subscriptions: RoomSubscriptions::new(),
            committed: CommittedAllRoomsResponseObservable::new(),
            observed: AllRoomsObservedIdsObservable::new(),
        }
    }

    /// What the service asks of the server. `thread_subscriptions` tells whether the client wants
    /// thread subscriptions and the server has them; where that could not be found out, they are
    /// not asked for.
    pub fn new_with<E>(
        share_pos: bool,
        connection_id: &str,
        timeline_limit: u32,
        own_user_id: Option<&str>,
        thread_subscriptions: Result<bool, E>,
    ) -> (r: RoomListRequest)
        ensures
            r.connection_id@ == connection_id@,
            r.share_pos == share_pos,
            r.account_data,
            r.receipts_of_all_subscribed,
            r.typing,
            r.thread_subscriptions_limit == (if thread_subscriptions == Ok::<bool, E>(true) {
                Some(10u64)
            } else {
                None
            }),
            r.list_name@ == "all_rooms"@,
            r.cached,
            r.range == (0u32, 19u32),
            r.timeline_limit == timeline_limit,
            owned_state_views(r.required_state@) == states_for_user(
                default_state(),
                opt_str(own_user_id),
            ),
            r.is_invite is None,
    {
        let thread_subscriptions_limit = match thread_subscriptions {
            Ok(enabled) => if enabled {
                Some(10)
            } else {
                None
            },
            Err(_) => None,
        };
        let required_state = default_required_state();
        RoomListRequest {
            connection_id: connection_id.to_owned(),
            share_pos,
            account_data: true,
            receipts_of_all_subscribed: true,
            typing: true,
            thread_subscriptions_limit,
            list_name: ALL_ROOMS_LIST_NAME.to_owned(),
            cached: true,
            range: (0, 19),
            timeline_limit,
            required_state: required_state_for_user(&required_state, own_user_id),
            is_invite: None,
        }
    }

    /// What the service asks of the server by default: the position is shared with other processes,
    /// and one timeline event is wanted of each room.
    pub fn default_request<E>(
        own_user_id: Option<&str>,
        thread_subscriptions: Result<bool, E>,
    ) -> (r: RoomListRequest)
        ensures
            r.connection_id@ == "room-list"@,
            r.share_pos,
            r.account_data,
            r.receipts_of_all_subscribed,
            r.typing,
            r.thread_subscriptions_limit == (if thread_subscriptions == Ok::<bool, E>(true) {
                Some(10u64)
            } else {
                None
            }),
            r.list_name@ == "all_rooms"@,
            r.cached,
            r.range == (0u32, 19u32),
            r.timeline_limit == 1,
            owned_state_views(r.required_state@) == states_for_user(
                default_state(),
                opt_str(own_user_id),
            ),
            r.is_invite is None,
    {
        Self::new_with(
            true,
            DEFAULT_CONNECTION_ID,
            DEFAULT_LIST_TIMELINE_LIMIT,
            own_user_id,
            thread_subscriptions,
        )
    }

    /// The current state.
    pub fn state(&self) -> (r: &State)
        ensures
            *r == self.current_state(),
    {
        &self.state
    }

    /// Starts a sync iteration that leads to the given state.
    pub fn begin_iteration(&mut self, next_state: &State)
        requires
            old(self).wf(),
        ensures
            final(self).wf(),
            final(self).current_state() == old(self).current_state(),
            final(self).subscribed() == old(self).subscribed(),
            final(self).evidence() == old(self).evidence(),
            final(self).named().observed() == old(self).named().observed(),
            final(self).named().is_new_cycle() == (old(self).named().is_new_cycle() || starts_cycle(
                *next_state,
            )),
    {
        let starts = match next_state {
            State::SettingUp => true,
            State::Recovering => true,
            _ => false,
        };
        if starts {
            self.observed.begin_cycle();
        }
    }

    /// The current subscriptions, to capture an iteration from.
    pub fn subscription_snapshot(&self) -> (r: RoomSubscriptionState)
        requires
            self.wf(),
        ensures
            r.generation == self.subscribed().generation(),
            r.active_rooms@ == self.subscribed().active_rooms(),
            r.active_rooms.wf(),
    {
        self.subscriptions.snapshot()
    }

    /// Binds a sync iteration to the subscriptions that were captured for it; `None` where they
    /// were replaced meanwhile.
    pub fn capture_room_subscription_iteration(
        &self,
        captured: RoomSubscriptionState,
        latest: &KeyedList<RoomTimelineSyncObservation>,
    ) -> (r: Option<RoomSubscriptionIteration>)
        requires
            self.wf(),
            captured.active_rooms.wf(),
            latest.wf(),
        ensures
            r is Some <==> captured.generation == self.subscribed().generation()
                && captured.active_rooms@ == self.subscribed().active_rooms(),
            r matches Some(iteration) ==> {
                &&& iteration.wf()
                &&& self.subscribed().is_current(iteration)
                &&& iteration.observation_baselines@.dom() == self.subscribed().active_rooms()
                &&& forall|room: Seq<char>|
                    self.subscribed().active_rooms().contains(room)
                        ==> #[trigger] iteration.baseline(room) == baseline_of(latest@, room)
            },
    {
        self.subscriptions.capture_room_subscription_iteration(captured, latest)
    }

    /// Ends a sync iteration that leads to the given state.
    ///
    /// A committed response counts only once all of its work is done. It leaves the checkpoints of
    /// its rooms and the rooms that it named, both with its own number. A failed or stopped sync
    /// leaves all of these as they are.
    pub fn sync(
        &mut self,
        next_state: State,
        iteration: &RoomSubscriptionIteration,
        result: SyncResult,
    ) -> (r: SyncStep)
        requires
            old(self).wf(),
            iteration.wf(),
            old(self).evidence().sequence < u64::MAX,
        ensures
            final(self).wf(),
            final(self).subscribed().generation() == old(self).subscribed().generation(),
            final(self).subscribed().active_rooms() == old(self).subscribed().active_rooms(),
            match result {
                SyncResult::Updated(summary) => match summary.all_rooms_list {
                    Some(list) => is_committed(
                        *old(self),
                        *final(self),
                        next_state,
                        *iteration,
                        summary,
                        list,
                        r,
                    ),
                    None => {
                        &&& is_unchanged(*old(self), *final(self), r)
                        &&& final(self).current_state() == old(self).current_state()
                        &&& r.yielded matches Some(Err(Error::UnknownList(name))) && name@
                            == "all_rooms"@
                        &&& !r.continues
                    },
                },
                SyncResult::Failed(reason) => {
                    &&& is_unchanged(*old(self), *final(self), r)
                    &&& final(self).current_state() == State::Error { from: Box::new(next_state) }
                    &&& r.yielded == Some(Err::<(), Error>(Error::SlidingSync(reason)))
                    &&& !r.continues
                },
                SyncResult::Ended => {
                    &&& is_unchanged(*old(self), *final(self), r)
                    &&& final(self).current_state() == State::Terminated {
                        from: Box::new(next_state),
                    }
                    &&& r.yielded is None
                    &&& !r.continues
                },
            },
    {
        match result {
            SyncResult::Updated(summary) => {
                let list = match summary.all_rooms_list {
                    Some(list) => list,
                    None => {
                        return SyncStep {
                            checkpoints_changed: false,
                            visible_changed: false,
                            committed: None,
                            yielded: Some(
                                Err(Error::UnknownList(ALL_ROOMS_LIST_NAME.to_owned())),
                            ),
                            continues: false,
                        };
                    },
                };
                let additions = collect_room_subscription_checkpoints(iteration, &summary.rooms);
                let ghost added = additions@;
                let range_fully_loaded = match RoomListRangeLoadingState::from_states(
                    &list.state,
                    &next_state,
                ) {
                    RoomListRangeLoadingState::FullyLoaded => true,
                    RoomListRangeLoadingState::PartiallyLoaded => false,
                };
                let committed = self.committed.advance(range_fully_loaded);
                let checkpoints_changed = self.subscriptions.publish_room_subscription_checkpoints(
                    iteration,
                    additions,
                    committed.sequence,
                );
                let visible_changed = self.observed.accumulate(
                    committed.sequence,
                    range_fully_loaded,
                    list.maximum_number_of_rooms,
                    &summary.rooms_from_response,
                );
                self.state = next_state;
                proof {
                    assert forall|room: Seq<char>| #[trigger]
                        self.subscribed().retained().contains_key(
                            room,
                        ) implies self.is_sound_checkpoint(
                        room,
                        self.subscribed().retained()[room],
                    ) by {
                        if checkpoints_changed {
                            checkpoints_carry_their_response(
                                old(self).subscribed().retained(),
                                iteration.generation,
                                committed.sequence,
                                added,
                                room,
                            );
                            if addition_rooms(added).contains(room) {
                                additions_are_subscribed(*iteration, summary.rooms@, room);
                            }
                        }
                    }
                }
                SyncStep {
                    checkpoints_changed,
                    visible_changed,
                    committed: Some(committed),
                    yielded: Some(Ok(())),
                    continues: true,
                }
            },
            SyncResult::Failed(reason) => {
                self.state = State::Error { from: Box::new(next_state) };
                SyncStep {
                    checkpoints_changed: false,
                    visible_changed: false,
                    committed: None,
                    yielded: Some(Err(Error::SlidingSync(reason))),
                    continues: false,
                }
            },
            SyncResult::Ended => {
                self.state = State::Terminated { from: Box::new(next_state) };
                SyncStep {
                    checkpoints_changed: false,
                    visible_changed: false,
                    committed: None,
                    yielded: None,
                    continues: false,
                }
            },
        }
    }

    /// Notes that the sync session has expired. A sync that was stopped counts as failed from then
    /// on, so that the lists are refreshed.
    pub fn expire_sync_session(&mut self)
        requires
            old(self).wf(),
        ensures
            final(self).wf(),
            final(self).subscribed() == old(self).subscribed(),
            final(self).evidence() == old(self).evidence(),
            final(self).named() == old(self).named(),
            final(self).current_state() == match old(self).current_state() {
                State::Terminated { from } => State::Error { from },
                state => state,
            },
    {
        let mut state = State::Init;
        std::mem::swap(&mut state, &mut self.state);
        self.state = match state {
            State::Terminated { from } => State::Error { from },
            other => other,
        };
    }

    /// The indicator over time. The parts of the result are the stream, the first indicator, and
    /// what to wait for.
    pub fn sync_indicator<D: Copy>(
        current_state: State,
        delay_before_showing: D,
        delay_before_hiding: D,
    ) -> (r: (SyncIndicatorStream<D>, SyncIndicator, IndicatorWait<D>))
        ensures
            r.0.seen() == current_state,
            r.0.delay_of(SyncIndicator::Show) == delay_before_showing,
            r.0.delay_of(SyncIndicator::Hide) == delay_before_hiding,
            r.1 == SyncIndicator::Hide,
            r.2 == IndicatorWait::StateOrDelay(r.0.delay_of(indicator_of(current_state))),
    {
        SyncIndicatorStream::new(current_state, delay_before_showing, delay_before_hiding)
    }

    /// The list of all rooms.
    pub fn all_rooms(sliding_sync_list: Option<SlidingSyncListInfo>, state: State) -> (r: Result<
        RoomList,
        Error,
    >)
        ensures
            match sliding_sync_list {
                Some(list) => {
                    &&& r matches Ok(room_list)
                    &&& !room_list.loading().fetched
                    &&& room_list.loading().published == match list.maximum_number_of_rooms {
                        Some(max) => RoomListLoadingState::Loaded {
                            maximum_number_of_rooms: Some(max),
                        },
                        None => RoomListLoadingState::NotLoaded,
                    }
                    &&& room_list.range() == (RangeLoading {
                        list_state: list.state,
                        service_state: state,
                    })
                },
                None => r matches Err(Error::UnknownList(name)) && name@ == "all_rooms"@,
            },
    {
        RoomList::new(ALL_ROOMS_LIST_NAME, sliding_sync_list, state)
    }

    /// The evidence of the last committed response.
    pub fn committed_all_rooms_response(&self) -> (r: CommittedAllRoomsResponse)
        ensures
            r == self.evidence(),
    {
        self.committed.get()
    }

    /// What responses have named, `None` before the first.
    pub fn observed_rooms(&self) -> (r: Option<&AllRoomsObservedIds>)
        ensures
            match r {
                Some(observed) => self.named().observed() == Some(*observed),
                None => self.named().observed() is None,
            },
    {
        self.observed.current()
    }

    /// Looks for a room among those that the client knows.
    pub fn room<'a>(rooms: &'a [Room], room_id: &str) -> (r: Result<&'a Room, Error>)
        ensures
            match r {
                Ok(room) => exists|i: int|
                    0 <= i < rooms@.len() && #[trigger] rooms@[i] == *room && room.room_id@
                        == room_id@,
                Err(error) => {
                    &&& error matches Error::RoomNotFound(id)
                    &&& id@ == room_id@
                    &&& forall|i: int|
                        0 <= i < rooms@.len() ==> (#[trigger] rooms@[i]).room_id@ != room_id@
                },
            },
    {
        let mut i: usize = 0;
        while i < rooms.len()
            invariant
                i <= rooms@.len(),
                forall|k: int| 0 <= k < i ==> (#[trigger] rooms@[k]).room_id@ != room_id@,
            decreases rooms@.len() - i,
        {
            if same_text(rooms[i].room_id.as_str(), room_id) {
                assert(rooms@[i as int] == rooms@[i as int]);
                return Ok(&rooms[i]);
            }
            i += 1;
        }
        Err(Error::RoomNotFound(room_id.to_owned()))
    }

    /// Replaces the subscribed rooms. The parts of the result are the generation of the new set,
    /// what is asked of the server for each room, and whether a request on its way is cancelled.
    pub fn subscribe_to_rooms_with_generation(
        &mut self,
        room_ids: &[String],
        own_user_id: Option<&str>,
    ) -> (r: (RoomSubscriptionGeneration, RoomSubscriptionSettings, bool))
        requires
            old(self).wf(),
        ensures
            final(self).wf(),
            final(self).current_state() == old(self).current_state(),
            final(self).evidence() == old(self).evidence(),
            final(self).named() == old(self).named(),
            final(self).subscribed().generation() == next_generation(
                old(self).subscribed().generation(),
            ),
            final(self).subscribed().active_rooms() == text_set(room_ids@),
            final(self).subscribed().retained() == Map::<
                Seq<char>,
                RoomSubscriptionCheckpoint,
            >::empty(),
            r.0.0 == final(self).subscribed().generation(),
            owned_state_views(r.1.required_state@) == subscription_state(opt_str(own_user_id)),
            r.1.timeline_limit == 20,
            r.2 == cancels_in_flight_request(old(self).current_state()),
    {
        let defaults = default_required_state();
        let mut required_state = required_state_for_user(&defaults, own_user_id);
        let ghost before = required_state@;
        required_state.push((StateEventType::RoomPinnedEvents, "".to_owned()));
        assert(owned_state_views(required_state@) =~= owned_state_views(before).push(
            (StateEventType::RoomPinnedEvents, ""@),
        ));
        let settings = RoomSubscriptionSettings {
            required_state,
            timeline_limit: DEFAULT_ROOM_SUBSCRIPTION_TIMELINE_LIMIT,
        };
        let cancel_in_flight_request = match &self.state {
            State::SettingUp => true,
            State::Running => true,
            _ => false,
        };
        let generation = self.subscriptions.replace(room_ids);
        (generation, settings, cancel_in_flight_request)
    }

    /// Replaces the subscribed rooms.
    pub fn subscribe_to_rooms(&mut self, room_ids: &[String], own_user_id: Option<&str>) -> (r: (
        RoomSubscriptionSettings,
        bool,
    ))
        requires
            old(self).wf(),
        ensures
            final(self).wf(),
            final(self).current_state() == old(self).current_state(),
            final(self).evidence() == old(self).evidence(),
            final(self).named() == old(self).named(),
            final(self).subscribed().generation() == next_generation(
                old(self).subscribed().generation(),
            ),
            final(self).subscribed().active_rooms() == text_set(room_ids@),
            final(self).subscribed().retained() == Map::<
                Seq<char>,
                RoomSubscriptionCheckpoint,
            >::empty(),
            owned_state_views(r.0.required_state@) == subscription_state(opt_str(own_user_id)),
            r.0.timeline_limit == 20,
            r.1 == cancels_in_flight_request(old(self).current_state()),
    {
        let (_, settings, cancel) = self.subscribe_to_rooms_with_generation(room_ids, own_user_id);
        (settings, cancel)
    }

    /// The latest checkpoint of each subscribed room.
    pub fn room_subscription_checkpoints(&self) -> (r: &KeyedList<RoomSubscriptionCheckpoint>)
        requires
            self.wf(),
        ensures
            r.wf(),
            r@ == self.subscribed().retained(),
    {
        self.subscriptions.checkpoints()
    }
}

/// Whether a sync left the responses, the named rooms and the checkpoints as they were, with nothing
/// to publish of them.
pub open spec fn is_unchanged(before: RoomListService, after: RoomListService, r: SyncStep) -> bool {
    &&& after.subscribed() == before.subscribed()
    &&& after.evidence() == before.evidence()
    &&& after.named() == before.named()
    &&& !r.checkpoints_changed
    &&& !r.visible_changed
    &&& r.committed is None
}

/// Whether a sync took in a committed response.
pub open spec fn is_committed(
    before: RoomListService,
    after: RoomListService,
    next_state: State,
    iteration: RoomSubscriptionIteration,
    summary: UpdateSummary,
    list: SlidingSyncListInfo,
    r: SyncStep,
) -> bool {
    let response = next_response(before.evidence(), list, next_state);
    let additions = additions_for(iteration, summary.rooms@);
    &&& after.current_state() == next_state
    &&& after.evidence() == response
    &&& r.committed == Some(response)
    &&& r.yielded == Some(Ok::<(), Error>(()))
    &&& r.continues
    &&& r.checkpoints_changed == (additions.len() > 0 && before.subscribed().is_current(iteration))
    &&& after.subscribed().retained() == if r.checkpoints_changed {
        with_additions(
            before.subscribed().retained(),
            iteration.generation,
            response.sequence,
            additions,
        )
    } else {
        before.subscribed().retained()
    }
    &&& !after.named().is_new_cycle()
    &&& after.named().observed() is Some
    &&& after.named().observed()->0.maximum_number_of_rooms == list.maximum_number_of_rooms
    &&& after.named().visible() == Some(
        rooms_after(
            before.named().visible(),
            before.named().is_new_cycle(),
            text_set(summary.rooms_from_response@),
        ),
    )
    &&& r.visible_changed == (after.named().visible() != before.named().visible())
}

/// The number of committed responses grows by one with each of them.
pub proof fn committed_sequence_increases(
    before: RoomListService,
    after: RoomListService,
    next_state: State,
    iteration: RoomSubscriptionIteration,
    summary: UpdateSummary,
    list: SlidingSyncListInfo,
    r: SyncStep,
)
    requires
        is_committed(before, after, next_state, iteration, summary, list, r),
        before.evidence().sequence < u64::MAX,
    ensures
        after.evidence().sequence == before.evidence().sequence + 1,
        after.evidence().pos_present,
{
}

/// A committed response counts the range as loaded only where the service runs with it and the whole
/// list is loaded.
pub proof fn range_is_full_only_while_running(
    before: CommittedAllRoomsResponse,
    list: SlidingSyncListInfo,
    state: State,
)
    ensures
        next_response(before, list, state).range_fully_loaded <==> state is Running && list.state
            == SlidingSyncListLoadingState::FullyLoaded,
{
}

/// The rooms that own the list, and the evidence of the committed response, always carry the same
/// number and the same range.
pub proof fn named_rooms_go_with_the_committed_response(service: RoomListService)
    requires
        service.wf(),
    ensures
        service.named().observed() is Some <==> service.evidence().sequence > 0,
        service.named().observed() matches Some(observed) ==> observed.response_sequence
            == service.evidence().sequence && observed.range_fully_loaded
            == service.evidence().range_fully_loaded,
{
}

/// A checkpoint that a response leaves carries the number of the very response that was committed.
pub proof fn checkpoint_and_commit_share_the_sequence(
    before: RoomListService,
    after: RoomListService,
    next_state: State,
    iteration: RoomSubscriptionIteration,
    summary: UpdateSummary,
    list: SlidingSyncListInfo,
    r: SyncStep,
    room: Seq<char>,
)
    requires
        is_committed(before, after, next_state, iteration, summary, list, r),
        r.checkpoints_changed,
        addition_rooms(additions_for(iteration, summary.rooms@)).contains(room),
    ensures
        after.subscribed().retained().contains_key(room),
        after.subscribed().retained()[room].response_sequence == after.evidence().sequence,
        after.subscribed().retained()[room].subscription_generation == iteration.generation,
{
    checkpoints_carry_their_response(
        before.subscribed().retained(),
        iteration.generation,
        after.evidence().sequence,
        additions_for(iteration, summary.rooms@),
        room,
    );
}

/// A response to subscriptions that were replaced meanwhile leaves no checkpoint.
pub proof fn superseded_subscriptions_leave_no_checkpoint(
    before: RoomListService,
    after: RoomListService,
    next_state: State,
    iteration: RoomSubscriptionIteration,
    summary: UpdateSummary,
    list: SlidingSyncListInfo,
    r: SyncStep,
)
    requires
        is_committed(before, after, next_state, iteration, summary, list, r),
        iteration.generation.0 != before.subscribed().generation(),
    ensures
        after.subscribed().retained() == before.subscribed().retained(),
{
}

/// A committed response makes the streams of entries that have been started begin anew exactly where
/// it changes the set of visible rooms. Where it leaves that set as it was, only its number is new.
/// `rooms` are the visible rooms after it.
pub proof fn unchanged_rooms_advance_the_sequence_without_a_reset(
    before: RoomListService,
    after: RoomListService,
    next_state: State,
    iteration: RoomSubscriptionIteration,
    summary: UpdateSummary,
    list: SlidingSyncListInfo,
    r: SyncStep,
    rooms: Option<IdSet>,
)
    requires
        is_committed(before, after, next_state, iteration, summary, list, r),
        before.evidence().sequence < u64::MAX,
        visible_view(rooms) == after.named().visible(),
    ensures
        after.evidence().sequence == before.evidence().sequence + 1,
        resets_on(true, before.named().visible(), DynamicEntriesEvent::Visible(rooms))
            == r.visible_changed,
        !before.named().is_new_cycle() && (before.named().visible() matches Some(known)
            && text_set(summary.rooms_from_response@).subset_of(known)) ==> !r.visible_changed,
{
    if let Some(known) = before.named().visible() {
        if !before.named().is_new_cycle() && text_set(summary.rooms_from_response@).subset_of(
            known,
        ) {
            assert(rooms_after(
                before.named().visible(),
                false,
                text_set(summary.rooms_from_response@),
            ) =~= known);
        }
    }
}

/// During a recovery the rooms that were named stay visible until a response comes, which then
/// replaces them. `recovering` is the service after the iteration began.
pub proof fn recovery_keeps_the_rooms_until_a_response_replaces_them(
    before: RoomListService,
    recovering: RoomListService,
    after: RoomListService,
    next_state: State,
    iteration: RoomSubscriptionIteration,
    summary: UpdateSummary,
    list: SlidingSyncListInfo,
    r: SyncStep,
)
    requires
        starts_cycle(next_state),
        recovering.named().observed() == before.named().observed(),
        recovering.named().is_new_cycle() == (before.named().is_new_cycle() || starts_cycle(
            next_state,
        )),
        is_committed(recovering, after, next_state, iteration, summary, list, r),
    ensures
        recovering.named().visible() == before.named().visible(),
        after.named().visible() == Some(text_set(summary.rooms_from_response@)),
{
}

/// State events are compared by type and key, one for one.
pub proof fn state_events_are_read_one_for_one<'a>(
    state: Seq<(StateEventType, &'a str)>,
    owned: Seq<(StateEventType, String)>,
    text: Option<&str>,
)
    ensures
        state_views(state).len() == state.len(),
        forall|i: int|
            0 <= i < state.len() ==> #[trigger] state_views(state)[i] == (state[i].0, state[i].1@),
        owned_state_views(owned).len() == owned.len(),
        forall|i: int|
            0 <= i < owned.len() ==> #[trigger] owned_state_views(owned)[i] == (
                owned[i].0,
                owned[i].1@,
            ),
        opt_str(text) is Some <==> text is Some,
        text is Some ==> opt_str(text)->0 == text->0@,
{
}

/// Of every room the same state events are asked for: those that have one key each by the empty key,
/// calls, spaces and locations by any key, and of the members those that matter and the user. The
/// pinned events are not among them.
pub proof fn default_state_has_one_key_for_each_type(i: int)
    requires
        0 <= i < default_state().len(),
    ensures
        default_state().len() == 17,
        default_state()[i].0 is RoomMember ==> default_state()[i].1 == "$LAZY"@
            || default_state()[i].1 == "$ME"@,
        default_state()[i].0 is CallMember || default_state()[i].0 is SpaceParent
            || default_state()[i].0 is SpaceChild || default_state()[i].0 is BeaconInfo
            ==> default_state()[i].1 == "*"@,
        !(default_state()[i].0 is RoomMember || default_state()[i].0 is CallMember
            || default_state()[i].0 is SpaceParent || default_state()[i].0 is SpaceChild
            || default_state()[i].0 is BeaconInfo) ==> default_state()[i].1 == ""@,
        default_state()[i].0 !is RoomPinnedEvents,
{
}

/// Every type of state event but the pinned events is asked for of every room.
pub proof fn default_state_asks_for_every_type_but_pinned_events(kind: StateEventType)
    requires
        kind !is RoomPinnedEvents,
    ensures
        exists|i: int| 0 <= i < default_state().len() && (#[trigger] default_state()[i]).0 == kind,
        default_state().contains((StateEventType::RoomMember, "$LAZY"@)),
        default_state().contains((StateEventType::RoomMember, "$ME"@)),
{
    let state = default_state();
    assert(state[0].0 is RoomName && state[1].0 is RoomEncryption && state[2].0 is RoomMember);
    assert(state[4].0 is RoomTopic && state[5].0 is RoomAvatar);
    assert(state[6].0 is RoomCanonicalAlias && state[7].0 is RoomPowerLevels);
    assert(state[8].0 is CallMember && state[9].0 is RoomJoinRules);
    assert(state[10].0 is RoomTombstone && state[11].0 is RoomCreate);
    assert(state[12].0 is RoomHistoryVisibility && state[13].0 is MemberHints);
    assert(state[14].0 is SpaceParent && state[15].0 is SpaceChild && state[16].0 is BeaconInfo);
    assert(state[2] == (StateEventType::RoomMember, "$LAZY"@));
    assert(state[3] == (StateEventType::RoomMember, "$ME"@));
}

/// Of a subscribed room the pinned events are asked for too, and otherwise what is asked for of every
/// room.
pub proof fn subscription_adds_the_pinned_events(own_user_id: Option<Seq<char>>, i: int)
    requires
        0 <= i < default_state().len(),
    ensures
        subscription_state(own_user_id).len() == default_state().len() + 1,
        subscription_state(own_user_id).last() == (StateEventType::RoomPinnedEvents, ""@),
        subscription_state(own_user_id)[i].0 == default_state()[i].0,
        own_user_id is Some && default_state()[i] == (StateEventType::RoomMember, "$ME"@)
            ==> subscription_state(own_user_id)[i].1 == own_user_id->0,
        own_user_id is None || default_state()[i] != (StateEventType::RoomMember, "$ME"@)
            ==> subscription_state(own_user_id)[i].1 == default_state()[i].1,
{
}

/// A server may wait only once the service runs and all rooms are loaded.
pub proof fn server_waits_only_when_all_rooms_are_loaded(state: State, is_fully_loaded: bool)
    ensures
        poll_timeout(state, is_fully_loaded) is Default <==> state is Running && is_fully_loaded,
        poll_timeout(state, is_fully_loaded) matches PollTimeout::Seconds(seconds) ==> seconds == 0,
{
}

/// The indicator is shown while the first rooms are loaded and after a failure, and in no other state.
pub proof fn indicator_is_shown_while_setting_up_and_after_a_failure(state: State)
    ensures
        state is SettingUp || state is Error ==> indicator_of(state) is Show,
        state is Init || state is Recovering || state is Running || state is Terminated
            ==> indicator_of(state) is Hide,
{
}

/// A new cycle of loading all rooms starts with the first rooms, and after an interruption.
pub proof fn cycle_starts_with_the_first_rooms_and_after_an_interruption(state: State)
    ensures
        state is SettingUp || state is Recovering ==> starts_cycle(state),
        state is Init || state is Running || state is Error || state is Terminated ==> !starts_cycle(
            state,
        ),
{
}

/// A change of the subscribed rooms cancels a request only where one is on its way that lasts: while
/// the first rooms are loaded, and while the service runs.
pub proof fn subscriptions_cancel_requests_that_last(state: State)
    ensures
        state is SettingUp || state is Running ==> cancels_in_flight_request(state),
        state is Init || state is Recovering || state is Error || state is Terminated
            ==> !cancels_in_flight_request(state),
{
}

/// An error names what it is about.
pub proof fn error_names_what_it_is_about(error: Error)
    ensures
        error matches Error::SlidingSync(reason) ==> error.text() == reason@,
        error matches Error::UnknownList(name) ==> {
            &&& error.text().len() == name@.len() + 15
            &&& error.text().take(14) == "Unknown list `"@
            &&& error.text().subrange(14, 14 + name@.len() as int) == name@
            &&& error.text().skip(14 + name@.len() as int) == "`"@
        },
        error matches Error::RoomNotFound(room_id) ==> {
            &&& error.text().len() == room_id@.len() + 17
            &&& error.text().take(6) == "Room `"@
            &&& error.text().subrange(6, 6 + room_id@.len() as int) == room_id@
            &&& error.text().skip(6 + room_id@.len() as int) == "` not found"@
        },
        error matches Error::EventCache(inner) ==> error.text() == inner.text(),
{
    reveal_strlit("Unknown list `");
    reveal_strlit("`");
    reveal_strlit("Room `");
    reveal_strlit("` not found");
    if let Error::UnknownList(name) = error {
        assert(error.text().take(14) =~= "Unknown list `"@);
        assert(error.text().subrange(14, 14 + name@.len() as int) =~= name@);
        assert(error.text().skip(14 + name@.len() as int) =~= "`"@);
    }
    if let Error::RoomNotFound(room_id) = error {
        assert(error.text().take(6) =~= "Room `"@);
        assert(error.text().subrange(6, 6 + room_id@.len() as int) =~= room_id@);
        assert(error.text().skip(6 + room_id@.len() as int) =~= "` not found"@);
    }
}

/// Responses are numbered in turn, and each of them carries a position.
pub proof fn responses_are_numbered_in_turn(
    before: CommittedAllRoomsResponse,
    list: SlidingSyncListInfo,
    state: State,
)
    requires
        before.sequence < u64::MAX,
    ensures
        next_response(before, list, state).sequence == before.sequence + 1,
        next_response(before, list, state).pos_present,
{
}

/// A sync that commits nothing leaves the subscriptions, the checkpoints, the evidence and the named
/// rooms as they were, and publishes none of them.
pub proof fn uncommitted_sync_changes_nothing(
    before: RoomListService,
    after: RoomListService,
    r: SyncStep,
)
    requires
        is_unchanged(before, after, r),
    ensures
        after.subscribed() == before.subscribed(),
        after.evidence() == before.evidence(),
        after.named() == before.named(),
        !r.checkpoints_changed,
        !r.visible_changed,
        r.committed is None,
{
}

/// A committed response moves the service to its state, goes on, and is published with its evidence.
/// A room is visible after it exactly where it named the room, or where the room was visible before
/// and no new cycle had started; the next response adds to these.
pub proof fn committed_response_decides_the_visible_rooms(
    before: RoomListService,
    after: RoomListService,
    next_state: State,
    iteration: RoomSubscriptionIteration,
    summary: UpdateSummary,
    list: SlidingSyncListInfo,
    r: SyncStep,
    room: Seq<char>,
)
    requires
        is_committed(before, after, next_state, iteration, summary, list, r),
    ensures
        after.current_state() == next_state,
        r.continues,
        r.yielded matches Some(done) && done is Ok,
        r.committed == Some(after.evidence()),
        !after.named().is_new_cycle(),
        after.named().observed() is Some,
        after.named().observed()->0.maximum_number_of_rooms == list.maximum_number_of_rooms,
        ({
            let is_named = exists|i: int|
                0 <= i < summary.rooms_from_response@.len()
                    && #[trigger] summary.rooms_from_response@[i]@ == room;
            let was_visible = before.named().observed() is Some
                && before.named().observed()->0.room_ids@.contains(room);
            after.named().observed()->0.room_ids@.contains(room) <==> is_named || (was_visible
                && !before.named().is_new_cycle())
        }),
{
    set_of_texts_holds_those_of_the_list(summary.rooms_from_response@, room);
}

/// A committed response to the current subscriptions leaves a checkpoint for each subscribed room that
/// it updated. It carries the number of the response, and the observation of the room's timeline
/// exactly where this is newer than the one that the iteration started from. `last` is the last
/// update of the room in the response.
pub proof fn committed_response_leaves_the_newer_observations(
    before: RoomListService,
    after: RoomListService,
    next_state: State,
    iteration: RoomSubscriptionIteration,
    summary: UpdateSummary,
    list: SlidingSyncListInfo,
    r: SyncStep,
    last: int,
)
    requires
        is_committed(before, after, next_state, iteration, summary, list, r),
        before.evidence().sequence < u64::MAX,
        before.subscribed().generation() == iteration.generation.0,
        before.subscribed().active_rooms() == iteration.active_rooms@,
        0 <= last < summary.rooms@.len(),
        iteration.active_rooms@.contains(summary.rooms@[last].0@),
        iteration.observation_baselines@.contains_key(summary.rooms@[last].0@),
        forall|j: int|
            last < j < summary.rooms@.len() ==> (#[trigger] summary.rooms@[j]).0@
                != summary.rooms@[last].0@,
    ensures
        ({
            let room = summary.rooms@[last].0@;
            let seen = summary.rooms@[last].1;
            let now = after.subscribed().retained();
            &&& r.checkpoints_changed
            &&& now.contains_key(room)
            &&& now[room].response_sequence == before.evidence().sequence + 1
            &&& now[room].subscription_generation == iteration.generation
            &&& now[room].timeline is Some <==> seen is Some && seen->0.sequence
                > iteration.observation_baselines@[room]
            &&& now[room].timeline is Some ==> now[room].timeline == seen
        }),
{
    last_update_of_a_room_is_retained(
        before.subscribed().retained(),
        iteration,
        after.evidence().sequence,
        summary.rooms@,
        last,
    );
}

proof fn last_update_of_a_room_is_retained(
    retained: Map<Seq<char>, RoomSubscriptionCheckpoint>,
    iteration: RoomSubscriptionIteration,
    response_sequence: u64,
    updated: Seq<CheckpointAddition>,
    last: int,
)
    requires
        0 <= last < updated.len(),
        iteration.active_rooms@.contains(updated[last].0@),
        iteration.observation_baselines@.contains_key(updated[last].0@),
        forall|j: int|
            last < j < updated.len() ==> (#[trigger] updated[j]).0@ != updated[last].0@,
    ensures
        additions_for(iteration, updated).len() > 0,
        ({
            let room = updated[last].0@;
            let seen = updated[last].1;
            let now = with_additions(
                retained,
                iteration.generation,
                response_sequence,
                additions_for(iteration, updated),
            );
            &&& now.contains_key(room)
            &&& now[room].response_sequence == response_sequence
            &&& now[room].subscription_generation == iteration.generation
            &&& now[room].timeline is Some <==> seen is Some && seen->0.sequence
                > iteration.observation_baselines@[room]
            &&& now[room].timeline is Some ==> now[room].timeline == seen
        }),
    decreases updated.len(),
{
    let rest = updated.drop_last();
    let room = updated[last].0@;
    assert(rest.push(updated.last()) =~= updated);
    subscribed_room_carries_what_is_newer_than_its_baseline(iteration, rest, updated.last());
    let earlier = additions_for(iteration, rest);
    let now = additions_for(iteration, updated);
    if iteration.active_rooms@.contains(updated.last().0@) {
        assert(earlier.push(now.last()) =~= now);
        last_addition_of_a_room_is_retained(
            retained,
            iteration.generation,
            response_sequence,
            earlier,
            now.last(),
            room,
        );
    }
    if last < rest.len() {
        assert forall|j: int| last < j < rest.len() implies (#[trigger] rest[j]).0@
            != rest[last].0@ by {
            assert(rest[j] == updated[j]);
        }
        last_update_of_a_room_is_retained(retained, iteration, response_sequence, rest, last);
        assert(updated[rest.len() as int].0@ != room);
    }
}

/// A well-formed service keeps checkpoints of subscribed rooms only, of the current set of
/// subscriptions, and of responses that were committed.
pub proof fn checkpoints_are_those_of_subscribed_rooms(service: RoomListService, room: Seq<char>)
    requires
        service.wf(),
        service.subscribed().retained().contains_key(room),
    ensures
        service.subscribed().active_rooms().contains(room),
        service.subscribed().retained()[room].room_id@ == room,
        service.subscribed().retained()[room].subscription_generation.0
            == service.subscribed().generation(),
        0 < service.subscribed().retained()[room].response_sequence,
        service.subscribed().retained()[room].response_sequence <= service.evidence().sequence,
{
}

/// The checkpoints change with a committed response exactly where it answers the current subscriptions
/// and updated a room of these. Where they do not change, they stay as they are.
pub proof fn checkpoints_change_where_a_subscribed_room_was_updated(
    before: RoomListService,
    after: RoomListService,
    next_state: State,
    iteration: RoomSubscriptionIteration,
    summary: UpdateSummary,
    list: SlidingSyncListInfo,
    r: SyncStep,
)
    requires
        is_committed(before, after, next_state, iteration, summary, list, r),
    ensures
        r.checkpoints_changed <==> {
            &&& before.subscribed().generation() == iteration.generation.0
            &&& before.subscribed().active_rooms() == iteration.active_rooms@
            &&& exists|i: int|
                0 <= i < summary.rooms@.len() && iteration.active_rooms@.contains(
                    (#[trigger] summary.rooms@[i]).0@,
                )
        },
        !r.checkpoints_changed ==> after.subscribed().retained()
            == before.subscribed().retained(),
{
    additions_come_of_subscribed_rooms(iteration, summary.rooms@);
}

proof fn additions_come_of_subscribed_rooms(
    iteration: RoomSubscriptionIteration,
    updated: Seq<CheckpointAddition>,
)
    ensures
        additions_for(iteration, updated).len() > 0 <==> exists|i: int|
            0 <= i < updated.len() && iteration.active_rooms@.contains(
                (#[trigger] updated[i]).0@,
            ),
    decreases updated.len(),
{
    if updated.len() == 0 {
        assert(updated =~= Seq::empty());
        assert(additions_for(iteration, updated) =~= Seq::empty());
    } else {
        let rest = updated.drop_last();
        let last = updated.last();
        additions_come_of_subscribed_rooms(iteration, rest);
        subscribed_room_carries_what_is_newer_than_its_baseline(iteration, rest, last);
        assert(rest.push(last) =~= updated);
        if iteration.active_rooms@.contains(last.0@) {
            assert(updated[updated.len() - 1] == last);
        }
        if additions_for(iteration, rest).len() > 0 {
            let i = choose|i: int|
                0 <= i < rest.len() && iteration.active_rooms@.contains((#[trigger] rest[i]).0@);
            assert(updated[i] == rest[i]);
        }
        if exists|i: int|
            0 <= i < updated.len() && iteration.active_rooms@.contains(
                (#[trigger] updated[i]).0@,
            ) {
            let i = choose|i: int|
                0 <= i < updated.len() && iteration.active_rooms@.contains(
                    (#[trigger] updated[i]).0@,
                );
            if i < rest.len() {
                assert(rest[i] == updated[i]);
            }
        }
    }
}

/// A room that a committed response did not update keeps the checkpoint that it had, or has none.
pub proof fn rooms_without_an_update_keep_their_checkpoint(
    before: RoomListService,
    after: RoomListService,
    next_state: State,
    iteration: RoomSubscriptionIteration,
    summary: UpdateSummary,
    list: SlidingSyncListInfo,
    r: SyncStep,
    room: Seq<char>,
)
    requires
        is_committed(before, after, next_state, iteration, summary, list, r),
        forall|i: int|
            0 <= i < summary.rooms@.len() ==> (#[trigger] summary.rooms@[i]).0@ != room,
    ensures
        after.subscribed().retained().contains_key(room)
            == before.subscribed().retained().contains_key(room),
        before.subscribed().retained().contains_key(room) ==> after.subscribed().retained()[room]
            == before.subscribed().retained()[room],
{
    let additions = additions_for(iteration, summary.rooms@);
    if addition_rooms(additions).contains(room) {
        let i = choose|i: int|
            0 <= i < addition_rooms(additions).len() && addition_rooms(additions)[i] == room;
        additions_keep_their_rooms(iteration, summary.rooms@, i);
    }
    checkpoints_carry_their_response(
        before.subscribed().retained(),
        iteration.generation,
        after.evidence().sequence,
        additions,
        room,
    );
}

proof fn additions_keep_their_rooms(
    iteration: RoomSubscriptionIteration,
    updated: Seq<CheckpointAddition>,
    at: int,
)
    requires
        0 <= at < additions_for(iteration, updated).len(),
    ensures
        exists|i: int|
            0 <= i < updated.len() && (#[trigger] updated[i]).0 == additions_for(
                iteration,
                updated,
            )[at].0,
    decreases updated.len(),
{
    if updated.len() == 0 {
        assert(updated =~= Seq::empty());
        assert(additions_for(iteration, updated) =~= Seq::empty());
    } else {
        let rest = updated.drop_last();
        let last = updated.last();
        subscribed_room_carries_what_is_newer_than_its_baseline(iteration, rest, last);
        assert(rest.push(last) =~= updated);
        let earlier = additions_for(iteration, rest);
        let now = additions_for(iteration, updated);
        if at < earlier.len() {
            assert(now[at] == earlier[at]) by {
                if iteration.active_rooms@.contains(last.0@) {
                    assert(now.drop_last()[at] == now[at]);
                }
            }
            additions_keep_their_rooms(iteration, rest, at);
            let i = choose|i: int|
                0 <= i < rest.len() && (#[trigger] rest[i]).0 == earlier[at].0;
            assert(updated[i] == rest[i]);
        } else {
            assert(updated[updated.len() - 1] == last);
        }
    }
}

/// The evidence of a committed response counts the range as loaded exactly where the service runs with
/// it and the whole list is loaded.
pub proof fn evidence_tells_whether_the_range_is_loaded(
    before: RoomListService,
    after: RoomListService,
    next_state: State,
    iteration: RoomSubscriptionIteration,
    summary: UpdateSummary,
    list: SlidingSyncListInfo,
    r: SyncStep,
)
    requires
        is_committed(before, after, next_state, iteration, summary, list, r),
    ensures
        after.evidence().range_fully_loaded <==> next_state is Running && list.state
            is FullyLoaded,
        r.visible_changed <==> after.named().visible() != before.named().visible(),
{
}

} // verus!
