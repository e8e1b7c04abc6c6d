//! The list of rooms: its entries, its loading states, and the pages of it that are shown.

use eyeball_im::VectorDiff as Change;
use vstd::prelude::*;
use vstd::string::*;

use crate::all_rooms::AllRoomsObservedIds;
use crate::keyed::IdSet;
use crate::room_list_service::Error;
use crate::text::{decimal, same_text, write_decimal};
use crate::vector_diff::VectorDiff;

verus! {

/// The state of the room list service.
#[derive(Debug)]
pub enum State {
    /// The service has not synced yet.
    Init,
    /// The first rooms are being loaded.
    SettingUp,
    /// The rooms are being loaded again after an error or a pause.
    Recovering,
    /// All rooms are being synced.
    Running,
    /// A sync failed.
    Error {
        /// The state that the sync would have led to.
        from: Box<State>,
    },
    /// The sync was stopped.
    Terminated {
        /// The state that the sync would have led to.
        from: Box<State>,
    },
}

/// How much of a sliding sync list is loaded.
#[derive(Clone, Copy, Debug, PartialEq, Eq, Structural)]
pub enum SlidingSyncListLoadingState {
    /// Nothing.
    NotLoaded,
    /// What the cache held.
    Preloaded,
    /// A part.
    PartiallyLoaded,
    /// All of it.
    FullyLoaded,
}

/// The coarse loading state of the range of rooms behind a room list.
#[derive(Clone, Copy, Debug, PartialEq, Eq, Structural)]
pub enum RoomListRangeLoadingState {
    /// The complete range has not been loaded yet.
    PartiallyLoaded,
    /// The complete range has been loaded.
    FullyLoaded,
}

/// The loading state of a range.
pub open spec fn range_loading(
    list_state: SlidingSyncListLoadingState,
    service_state: State,
) -> RoomListRangeLoadingState {
    if list_state == SlidingSyncListLoadingState::FullyLoaded && service_state is Running {
        RoomListRangeLoadingState::FullyLoaded
    } else {
        RoomListRangeLoadingState::PartiallyLoaded
    }
}

impl RoomListRangeLoadingState {
    /// The loading state of a range. A list that is loaded counts only while the service runs.
    pub fn from_states(
        list_state: &SlidingSyncListLoadingState,
        service_state: &State,
    ) -> (r: Self)
        ensures
            r == range_loading(*list_state, *service_state),
    {
        match (list_state, service_state) {
            (SlidingSyncListLoadingState::FullyLoaded, State::Running) => Self::FullyLoaded,
            _ => Self::PartiallyLoaded,
        }
    }
}

/// Follows the states of a list and of the service.
#[derive(Debug)]
pub struct RangeLoading {
    /// The last state of the list.
    pub list_state: SlidingSyncListLoadingState,
    /// The last state of the service.
    pub service_state: State,
}

impl RangeLoading {
    /// Takes in a state of the list. The result is the loading state to publish.
    pub fn on_list_state(&mut self, state: SlidingSyncListLoadingState) -> (r:
        RoomListRangeLoadingState)
        ensures
            *final(self) == (RangeLoading { list_state: state, ..*old(self) }),
            r == range_loading(final(self).list_state, final(self).service_state),
    {
        self.list_state = state;
        RoomListRangeLoadingState::from_states(&self.list_state, &self.service_state)
    }

    /// Takes in a state of the service. The result is the loading state to publish.
    pub fn on_service_state(&mut self, state: State) -> (r: RoomListRangeLoadingState)
        ensures
            *final(self) == (RangeLoading { service_state: state, ..*old(self) }),
            r == range_loading(final(self).list_state, final(self).service_state),
    {
        self.service_state = state;
        RoomListRangeLoadingState::from_states(&self.list_state, &self.service_state)
    }
}

/// The loading state of a room list.
#[derive(Clone, Copy, Debug, PartialEq, Eq, Structural)]
pub enum RoomListLoadingState {
    /// The list has not been loaded yet: there is nothing to show.
    ///
    /// From here it is only possible to move to `Loaded`.
    NotLoaded,
    /// The list has been loaded: a sync has run.
    ///
    /// From here it is not possible to move back to `NotLoaded`.
    Loaded {
        /// The number of rooms that the list contains, as far as the server has told.
        maximum_number_of_rooms: Option<u32>,
    },
}

/// Follows the service to find when a list is loaded.
#[derive(Debug)]
pub struct ListLoading {
    /// Whether the service has fetched something.
    pub fetched: bool,
    /// The loading state that was published last.
    pub published: RoomListLoadingState,
}

/// Something that happens to a list that is being loaded.
#[derive(Debug)]
pub enum ListLoadingEvent {
    /// The service moved to a state.
    ServiceState(State),
    /// The service is gone.
    ServiceEnded,
    /// The number of rooms changed.
    MaximumNumberOfRooms,
}

/// Whether something was fetched by the time of an event.
pub open spec fn fetched_after(fetched: bool, event: ListLoadingEvent) -> bool {
    fetched || match event {
        ListLoadingEvent::ServiceState(state) => state is SettingUp || state is Recovering
            || state is Running,
        ListLoadingEvent::ServiceEnded => true,
        ListLoadingEvent::MaximumNumberOfRooms => false,
    }
}

/// Whether an event publishes a loading state: the first one by which something was fetched does,
/// and every later change to the number of rooms.
pub open spec fn publishes_loading(fetched: bool, event: ListLoadingEvent) -> bool {
    if fetched {
        event is MaximumNumberOfRooms
    } else {
        fetched_after(fetched, event)
    }
}

impl ListLoading {
    /// Starts with a list that counts as loaded where its number of rooms is known.
    pub fn new(maximum_number_of_rooms: Option<u32>) -> (r: Self)
        ensures
            !r.fetched,
            r.published == match maximum_number_of_rooms {
                Some(_) => RoomListLoadingState::Loaded { maximum_number_of_rooms },
                None => RoomListLoadingState::NotLoaded,
            },
    {
        let published = match maximum_number_of_rooms {
            Some(_) => RoomListLoadingState::Loaded { maximum_number_of_rooms },
            None => RoomListLoadingState::NotLoaded,
        };
        ListLoading { fetched: false, published }
    }

    /// Takes in an event, with the current number of rooms. The result is the loading state to
    /// publish.
    pub fn on_event(
        &mut self,
        event: ListLoadingEvent,
        maximum_number_of_rooms: Option<u32>,
    ) -> (r: Option<RoomListLoadingState>)
        ensures
            final(self).fetched == fetched_after(old(self).fetched, event),
            publishes_loading(old(self).fetched, event) ==> r == Some(
                RoomListLoadingState::Loaded { maximum_number_of_rooms },
            ) && final(self).published == r->0,
            !publishes_loading(old(self).fetched, event) ==> r is None && final(self).published
                == old(self).published,
            old(self).published is Loaded ==> final(self).published is Loaded,
    {
        let publishes = if self.fetched {
            match event {
                ListLoadingEvent::MaximumNumberOfRooms => true,
                _ => false,
            }
        } else {
            match event {
                ListLoadingEvent::ServiceState(state) => match state {
                    State::SettingUp => true,
                    State::Recovering => true,
                    State::Running => true,
                    _ => false,
                },
                ListLoadingEvent::ServiceEnded => true,
                ListLoadingEvent::MaximumNumberOfRooms => false,
            }
        };
        if !publishes {
            return None;
        }
        self.fetched = true;
        self.published = RoomListLoadingState::Loaded { maximum_number_of_rooms };
        Some(self.published)
    }
}

/// The user's relation to a room.
#[derive(Clone, Copy, Debug, PartialEq, Eq, Structural)]
pub enum RoomState {
    /// The user is in the room.
    Joined,
    /// The user left the room.
    Left,
    /// The user is invited to the room.
    Invited,
    /// The user asked to be let in.
    Knocked,
    /// The user is banned from the room.
    Banned,
}

/// What is known of a room.
#[derive(Debug)]
pub struct Room {
    /// The identifier of the room.
    pub room_id: String,
    /// The user's relation to the room.
    pub state: RoomState,
    /// When the latest event was sent, in milliseconds since the Unix epoch.
    pub latest_event_timestamp: Option<u64>,
    /// Whether the latest event is one that has not been sent yet.
    pub latest_event_is_unsent: bool,
    /// A number by which the server orders rooms.
    pub recency_stamp: Option<u64>,
    /// The name of the room.
    pub display_name: Option<String>,
    /// Whether the room is a space.
    pub is_space: bool,
}

impl Clone for Room {
    fn clone(&self) -> (r: Self)
        ensures
            r == *self,
    {
        Room {
            room_id: self.room_id.clone(),
            state: self.state,
            latest_event_timestamp: self.latest_event_timestamp,
            latest_event_is_unsent: self.latest_event_is_unsent,
            recency_stamp: self.recency_stamp,
            display_name: self.display_name.clone(),
            is_space: self.is_space,
        }
    }
}

/// A room with a copy of the data that filters and sorters read.
#[derive(Debug)]
pub struct RoomListItem {
    /// The room.
    pub inner: Room,
    /// Copy of the latest event's time.
    pub cached_latest_event_timestamp: Option<u64>,
    /// Copy of whether the latest event is unsent.
    pub cached_latest_event_is_unsent: bool,
    /// Copy of the recency stamp.
    pub cached_recency_stamp: Option<u64>,
    /// Copy of the name.
    pub cached_display_name: Option<String>,
    /// Copy of whether the room is a space.
    pub cached_is_space: bool,
    /// Copy of the user's relation to the room.
    pub cached_state: RoomState,
}

/// The entry of a room.
pub open spec fn item_of(room: Room) -> RoomListItem {
    RoomListItem {
        inner: room,
        cached_latest_event_timestamp: room.latest_event_timestamp,
        cached_latest_event_is_unsent: room.latest_event_is_unsent,
        cached_recency_stamp: room.recency_stamp,
        cached_display_name: room.display_name,
        cached_is_space: room.is_space,
        cached_state: room.state,
    }
}

impl RoomListItem {
    /// The entry of a room.
    pub fn from_room(inner: Room) -> (r: Self)
        ensures
            r == item_of(inner),
    {
        let cached_latest_event_timestamp = inner.latest_event_timestamp;
        let cached_latest_event_is_unsent = inner.latest_event_is_unsent;
        let cached_recency_stamp = inner.recency_stamp;
        let cached_display_name = inner.display_name.clone();
        let cached_is_space = inner.is_space;
        let cached_state = inner.state;
        RoomListItem {
            inner,
            cached_latest_event_timestamp,
            cached_latest_event_is_unsent,
            cached_recency_stamp,
            cached_display_name,
            cached_is_space,
            cached_state,
        }
    }

    /// Takes in what is now known of the room, and refreshes the copies.
    pub fn refresh_cached_data(&mut self, now: Room)
        ensures
            *final(self) == item_of(now),
    {
        self.inner = now;
        self.cached_latest_event_timestamp = self.inner.latest_event_timestamp;
        self.cached_latest_event_is_unsent = self.inner.latest_event_is_unsent;
        self.cached_recency_stamp = self.inner.recency_stamp;
        self.cached_display_name = self.inner.display_name.clone();
        self.cached_is_space = self.inner.is_space;
        self.cached_state = self.inner.state;
    }

    /// Deconstructs to the room.
    pub fn into_inner(self) -> (r: Room)
        ensures
            r == self.inner,
    {
        self.inner
    }
}

impl Clone for RoomListItem {
    fn clone(&self) -> (r: Self)
        ensures
            r == *self,
    {
        RoomListItem {
            inner: self.inner.clone(),
            cached_latest_event_timestamp: self.cached_latest_event_timestamp,
            cached_latest_event_is_unsent: self.cached_latest_event_is_unsent,
            cached_recency_stamp: self.cached_recency_stamp,
            cached_display_name: self.cached_display_name.clone(),
            cached_is_space: self.cached_is_space,
            cached_state: self.cached_state,
        }
    }
}

/// A projection of the entries at one point in time.
///
/// Before the first response the entries are those of the cache, and there is no response that owns
/// them. After it they are the rooms that responses named.
pub struct RoomListEntriesSnapshot {
    entries: Vec<RoomListItem>,
    response_sequence: Option<u64>,
    range_fully_loaded: Option<bool>,
    maximum_number_of_rooms: Option<u32>,
}

impl RoomListEntriesSnapshot {
    /// The entries.
    pub closed spec fn items(self) -> Seq<RoomListItem> {
        self.entries@
    }

    /// The number of the response that owns the entries.
    pub closed spec fn owner(self) -> Option<u64> {
        self.response_sequence
    }

    /// Whether that response had loaded the whole range.
    pub closed spec fn range_was_full(self) -> Option<bool> {
        self.range_fully_loaded
    }

    /// The number of rooms that the response reported.
    pub closed spec fn reported_rooms(self) -> Option<u32> {
        self.maximum_number_of_rooms
    }

    /// The current room entries.
    pub fn entries(&self) -> (r: &Vec<RoomListItem>)
        ensures
            r@ == self.items(),
    {
        &self.entries
    }

    /// Consumes this snapshot and returns its room entries.
    pub fn into_entries(self) -> (r: Vec<RoomListItem>)
        ensures
            r@ == self.items(),
    {
        self.entries
    }

    /// The number of the response that owns this projection, or `None` while it is that of the
    /// cache.
    pub fn response_sequence(&self) -> (r: Option<u64>)
        ensures
            r == self.owner(),
    {
        self.response_sequence
    }

    /// Whether a response owns this projection.
    pub fn is_authoritative(&self) -> (r: bool)
        ensures
            r == self.owner() is Some,
    {
        self.response_sequence.is_some()
    }

    /// Whether the owning response had loaded the whole range.
    pub fn range_fully_loaded(&self) -> (r: Option<bool>)
        ensures
            r == self.range_was_full(),
    {
        self.range_fully_loaded
    }

    /// The number of rooms that the owning response reported.
    pub fn maximum_number_of_rooms(&self) -> (r: Option<u32>)
        ensures
            r == self.reported_rooms(),
    {
        self.maximum_number_of_rooms
    }

    /// The text that describes the snapshot. It tells of the entries only how many they are.
    pub open spec fn description(self) -> Seq<char> {
        "RoomListEntriesSnapshot { response_sequence: "@ + option_text(
            match self.owner() {
                Some(n) => Some(decimal(n as nat)),
                None => None,
            },
        ) + ", range_fully_loaded: "@ + option_text(
            match self.range_was_full() {
                Some(b) => Some(
                    if b {
                        "true"@
                    } else {
                        "false"@
                    },
                ),
                None => None,
            },
        ) + ", maximum_number_of_rooms: "@ + option_text(
            match self.reported_rooms() {
                Some(n) => Some(decimal(n as nat)),
                None => None,
            },
        ) + ", entry_count: "@ + decimal(self.items().len()) + " }"@
    }

    /// Describes the snapshot without naming any room.
    pub fn describe(&self) -> (r: String)
        ensures
            r@ == self.description(),
    {
        let mut text = "RoomListEntriesSnapshot { response_sequence: ".to_owned();
        match self.response_sequence {
            Some(n) => push_some(&mut text, write_decimal(n).as_str()),
            None => text.append("None"),
        }
        text.append(", range_fully_loaded: ");
        match self.range_fully_loaded {
            Some(b) => if b {
                push_some(&mut text, "true");
            } else {
                push_some(&mut text, "false");
            },
            None => text.append("None"),
        }
        text.append(", maximum_number_of_rooms: ");
        match self.maximum_number_of_rooms {
            Some(n) => push_some(&mut text, write_decimal(n as u64).as_str()),
            None => text.append("None"),
        }
        text.append(", entry_count: ");
        text.append(write_decimal(self.entries.len() as u64).as_str());
        text.append(" }");
        assert(text@ =~= self.description());
        text
    }
}

/// The text of an optional value.
pub open spec fn option_text(value: Option<Seq<char>>) -> Seq<char> {
    match value {
        Some(text) => "Some("@ + text + ")"@,
        None => "None"@,
    }
}

fn push_some(text: &mut String, value: &str)
    ensures
        final(text)@ == old(text)@ + option_text(Some(value@)),
{
    text.append("Some(");
    text.append(value);
    text.append(")");
    assert(text@ =~= old(text)@ + option_text(Some(value@)));
}

/// Whether a room belongs to the list: the user is in it or invited to it, and it is visible.
pub open spec fn belongs_to_list(room: Room, visible: Option<Set<Seq<char>>>) -> bool {
    &&& room.state == RoomState::Joined || room.state == RoomState::Invited
    &&& visible is Some ==> visible->0.contains(room.room_id@)
}

/// The visible rooms of what responses have named.
pub open spec fn visible_rooms(observed: Option<&AllRoomsObservedIds>) -> Option<Set<Seq<char>>> {
    match observed {
        Some(named) => Some(named.room_ids@),
        None => None,
    }
}

/// The entries of a list of rooms.
pub open spec fn items_of(rooms: Seq<Room>) -> Seq<RoomListItem> {
    rooms.map_values(|room: Room| item_of(room))
}

/// Whether a change to a list of entries is the given change to the list of their rooms.
pub open spec fn is_item_diff(raw: VectorDiff<Room>, diff: VectorDiff<RoomListItem>) -> bool {
    match (raw, diff) {
        (VectorDiff::Append { values }, VectorDiff::Append { values: items }) => items@ == items_of(
            values@,
        ),
        (VectorDiff::Clear, VectorDiff::Clear) => true,
        (VectorDiff::PushFront { value }, VectorDiff::PushFront { value: item }) => item == item_of(
            value,
        ),
        (VectorDiff::PushBack { value }, VectorDiff::PushBack { value: item }) => item == item_of(
            value,
        ),
        (VectorDiff::PopFront, VectorDiff::PopFront) => true,
        (VectorDiff::PopBack, VectorDiff::PopBack) => true,
        (VectorDiff::Insert { index, value }, VectorDiff::Insert { index: at, value: item }) => at
            == index && item == item_of(value),
        (VectorDiff::Replace { index, value }, VectorDiff::Replace { index: at, value: item }) => at
            == index && item == item_of(value),
        (VectorDiff::Remove { index }, VectorDiff::Remove { index: at }) => at == index,
        (VectorDiff::Truncate { length }, VectorDiff::Truncate { length: kept }) => kept == length,
        (VectorDiff::Reset { values }, VectorDiff::Reset { values: items }) => items@ == items_of(
            values@,
        ),
        _ => false,
    }
}

/// Changing the list of rooms and then taking their entries is the same as changing the list of
/// entries.
pub proof fn item_diff_follows_the_rooms(
    raw: VectorDiff<Room>,
    diff: VectorDiff<RoomListItem>,
    rooms: Seq<Room>,
)
    requires
        is_item_diff(raw, diff),
        raw.fits(rooms),
    ensures
        diff.fits(items_of(rooms)),
        diff.applied(items_of(rooms)) == items_of(raw.applied(rooms)),
{
    assert(diff.applied(items_of(rooms)) =~= items_of(raw.applied(rooms)));
}

/// The entries of a list of rooms.
fn make_items(rooms: Vec<Room>) -> (items: Vec<RoomListItem>)
    ensures
        items@ == items_of(rooms@),
{
    let mut items: Vec<RoomListItem> = Vec::new();
    for room in it: rooms
        invariant
            it.seq() == rooms@,
            items@ == items_of(rooms@.take(it.index() as int)),
    {
        items.push(RoomListItem::from_room(room));
        assert(items@ =~= items_of(rooms@.take(it.index() + 1)));
    }
    assert(rooms@.take(rooms@.len() as int) =~= rooms@);
    items
}

/// The change to the list of entries that a change to the list of rooms makes.
fn make_item_diff(raw: VectorDiff<Room>) -> (diff: VectorDiff<RoomListItem>)
    ensures
        is_item_diff(raw, diff),
{
    match raw {
        VectorDiff::Append { values } => VectorDiff::Append { values: make_items(values) },
        VectorDiff::Clear => VectorDiff::Clear,
        VectorDiff::PushFront { value } => VectorDiff::PushFront {
            value: RoomListItem::from_room(value),
        },
        VectorDiff::PushBack { value } => VectorDiff::PushBack {
            value: RoomListItem::from_room(value),
        },
        VectorDiff::PopFront => VectorDiff::PopFront,
        VectorDiff::PopBack => VectorDiff::PopBack,
        VectorDiff::Insert { index, value } => VectorDiff::Insert {
            index,
            value: RoomListItem::from_room(value),
        },
        VectorDiff::Replace { index, value } => VectorDiff::Replace {
            index,
            value: RoomListItem::from_room(value),
        },
        VectorDiff::Remove { index } => VectorDiff::Remove { index },
        VectorDiff::Truncate { length } => VectorDiff::Truncate { length },
        VectorDiff::Reset { values } => VectorDiff::Reset { values: make_items(values) },
    }
}

/// Copies a change to a list of entries.
fn copy_item_diff(diff: &VectorDiff<RoomListItem>) -> (r: VectorDiff<RoomListItem>)
    ensures
        forall|list: Seq<RoomListItem>| #[trigger] r.applied(list) == diff.applied(list),
        forall|list: Seq<RoomListItem>| #[trigger] r.fits(list) == diff.fits(list),
{
    match diff {
        VectorDiff::Append { values } => VectorDiff::Append { values: copy_items(values) },
        VectorDiff::Clear => VectorDiff::Clear,
        VectorDiff::PushFront { value } => VectorDiff::PushFront { value: value.clone() },
        VectorDiff::PushBack { value } => VectorDiff::PushBack { value: value.clone() },
        VectorDiff::PopFront => VectorDiff::PopFront,
        VectorDiff::PopBack => VectorDiff::PopBack,
        VectorDiff::Insert { index, value } => VectorDiff::Insert {
            index: *index,
            value: value.clone(),
        },
        VectorDiff::Replace { index, value } => VectorDiff::Replace {
            index: *index,
            value: value.clone(),
        },
        VectorDiff::Remove { index } => VectorDiff::Remove { index: *index },
        VectorDiff::Truncate { length } => VectorDiff::Truncate { length: *length },
        VectorDiff::Reset { values } => VectorDiff::Reset { values: copy_items(values) },
    }
}

/// Copies a list of entries.
fn copy_items(items: &Vec<RoomListItem>) -> (r: Vec<RoomListItem>)
    ensures
        r@ == items@,
{
    let r = items.clone();
    assert(r@ =~= items@);
    r
}

/// A list of entries. It holds an `imbl::Vector`, whose pointer type is bound by a trait of another
/// crate.
#[verifier::external_body]
#[derive(Debug)]
pub struct RoomVector {
    items: imbl::Vector<RoomListItem>,
}

/// What a [`RoomVector`] holds.
pub uninterp spec fn listed_rooms(list: RoomVector) -> Seq<RoomListItem>;

impl RoomVector {
    /// `imbl::Vector` made from a `Vec` holds its elements in order.
    #[verifier::external_body]
    pub(crate) fn from_items(items: Vec<RoomListItem>) -> (r: Self)
        ensures
            listed_rooms(r) == items@,
    {
        RoomVector { items: imbl::Vector::from(items) }
    }

    /// `imbl::Vector::len` gives the number of elements.
    #[verifier::external_body]
    fn len(&self) -> (r: usize)
        ensures
            r == listed_rooms(*self).len(),
    {
        self.items.len()
    }

    /// `imbl::Vector::get` gives the element at an index, where there is one.
    #[verifier::external_body]
    fn get(&self, index: usize) -> (r: Option<&RoomListItem>)
        ensures
            match r {
                Some(item) => index < listed_rooms(*self).len() && *item == listed_rooms(
                    *self,
                )[index as int],
                None => index >= listed_rooms(*self).len(),
            },
    {
        self.items.get(index)
    }

    /// `eyeball_im::VectorDiff::apply` makes the change to an `imbl::Vector`. It panics where an
    /// index lies outside the vector, and where the vector would become too long.
    #[verifier::external_body]
    fn apply(&mut self, diff: VectorDiff<RoomListItem>)
        requires
            diff.fits(listed_rooms(*old(self))),
            diff.applied(listed_rooms(*old(self))).len() < usize::MAX,
        ensures
            listed_rooms(*final(self)) == diff.applied(listed_rooms(*old(self))),
    {
        let change = match diff {
            VectorDiff::Append { values } => Change::Append { values: values.into() },
            VectorDiff::Clear => Change::Clear,
            VectorDiff::PushFront { value } => Change::PushFront { value },
            VectorDiff::PushBack { value } => Change::PushBack { value },
            VectorDiff::PopFront => Change::PopFront,
            VectorDiff::PopBack => Change::PopBack,
            VectorDiff::Insert { index, value } => Change::Insert { index, value },
            VectorDiff::Replace { index, value } => Change::Set { index, value },
            VectorDiff::Remove { index } => Change::Remove { index },
            VectorDiff::Truncate { length } => Change::Truncate { length },
            VectorDiff::Reset { values } => Change::Reset { values: values.into() },
        };
        change.apply(&mut self.items);
    }
}

/// The list after a number of changes.
pub open spec fn applied_all(
    diffs: Seq<VectorDiff<RoomListItem>>,
    list: Seq<RoomListItem>,
) -> Seq<RoomListItem>
    decreases diffs.len(),
{
    if diffs.len() == 0 {
        list
    } else {
        diffs.last().applied(applied_all(diffs.drop_last(), list))
    }
}

/// The list of rooms after a number of changes.
pub open spec fn rooms_applied_all(diffs: Seq<VectorDiff<Room>>, rooms: Seq<Room>) -> Seq<Room>
    decreases diffs.len(),
{
    if diffs.len() == 0 {
        rooms
    } else {
        diffs.last().applied(rooms_applied_all(diffs.drop_last(), rooms))
    }
}

/// Why a room is worth another look.
#[derive(Clone, Copy, Debug, PartialEq, Eq, Structural)]
pub struct RoomInfoNotableUpdateReasons {
    /// The recency stamp changed.
    pub recency_stamp: bool,
    /// Something else changed.
    pub others: bool,
}

/// Something that happens to a list of rooms.
#[derive(Debug)]
pub enum MergeEvent {
    /// The rooms changed.
    Raw(Vec<VectorDiff<Room>>),
    /// The source of the changes ended.
    RawEnded,
    /// What is known of a room changed.
    Notable {
        /// What changed.
        reasons: RoomInfoNotableUpdateReasons,
        /// The room as it is now known.
        now: Room,
    },
    /// Notices of this kind were missed.
    NotableLagged,
    /// The source of such notices ended.
    NotableClosed,
}

/// What follows from such an event.
#[derive(Debug)]
pub enum MergeAction {
    /// The changes are handed on.
    Yield(Vec<VectorDiff<RoomListItem>>),
    /// Nothing.
    Continue,
    /// The stream ends.
    Break,
}

/// Whether `at` is the first entry of a room.
pub open spec fn is_first_entry(list: Seq<RoomListItem>, room_id: Seq<char>, at: int) -> bool {
    &&& 0 <= at < list.len()
    &&& list[at].inner.room_id@ == room_id
    &&& forall|j: int| 0 <= j < at ==> (#[trigger] list[j]).inner.room_id@ != room_id
}

/// Whether a room has no entry.
pub open spec fn has_no_entry(list: Seq<RoomListItem>, room_id: Seq<char>) -> bool {
    forall|j: int| 0 <= j < list.len() ==> (#[trigger] list[j]).inner.room_id@ != room_id
}

/// Whether an action is the right one for a notice about a room: a refreshed entry in place of the
/// room's first one. A mere change of the recency stamp gives nothing, nor does a room that is not
/// listed.
pub open spec fn answers_notice(
    list: Seq<RoomListItem>,
    reasons: RoomInfoNotableUpdateReasons,
    now: Room,
    action: MergeAction,
) -> bool {
    let ignored = reasons.recency_stamp && !reasons.others;
    if ignored || has_no_entry(list, now.room_id@) {
        action is Continue
    } else {
        &&& action matches MergeAction::Yield(diffs)
        &&& diffs@.len() == 1
        &&& diffs@[0] matches VectorDiff::Replace { index, value }
        &&& value == item_of(now)
        &&& is_first_entry(list, now.room_id@, index as int)
    }
}

/// Whether each change to the entries is the one that the change to the rooms makes.
pub open spec fn are_item_diffs(
    raw: Seq<VectorDiff<Room>>,
    diffs: Seq<VectorDiff<RoomListItem>>,
) -> bool {
    &&& diffs.len() == raw.len()
    &&& forall|i: int| 0 <= i < raw.len() ==> is_item_diff(raw[i], #[trigger] diffs[i])
}

/// Whether changes can be made to a list of a given content one after the other, without its
/// becoming too long.
pub open spec fn fit_one_after_the_other(
    raw: Seq<VectorDiff<Room>>,
    rooms: Seq<Room>,
) -> bool {
    forall|k: int|
        0 <= k < raw.len() ==> (#[trigger] raw[k]).fits(rooms_applied_all(raw.take(k), rooms))
            && raw[k].applied(rooms_applied_all(raw.take(k), rooms)).len() < usize::MAX
}

/// The rooms of a list of entries.
pub open spec fn rooms_of(items: Seq<RoomListItem>) -> Seq<Room> {
    items.map_values(|item: RoomListItem| item.inner)
}

/// Whether every entry holds what it knows of its room.
pub open spec fn entries_are_fresh(items: Seq<RoomListItem>) -> bool {
    forall|i: int| 0 <= i < items.len() ==> #[trigger] items[i] == item_of(items[i].inner)
}

proof fn fresh_entries_come_from_their_rooms(items: Seq<RoomListItem>)
    requires
        entries_are_fresh(items),
    ensures
        items_of(rooms_of(items)) == items,
{
    assert(items_of(rooms_of(items)) =~= items);
}

/// Merges the changes to the list of all rooms with notices about single rooms. `current` is the
/// list as the changes left it, so that the place of each room is known.
pub fn merge_stream_and_receiver(current: &mut RoomVector, event: MergeEvent) -> (r: MergeAction)
    requires
        entries_are_fresh(listed_rooms(*old(current))),
        event matches MergeEvent::Raw(raw) ==> fit_one_after_the_other(
            raw@,
            rooms_of(listed_rooms(*old(current))),
        ),
    ensures
        entries_are_fresh(listed_rooms(*final(current))),
        match event {
            MergeEvent::Raw(raw) => {
                &&& r matches MergeAction::Yield(diffs)
                &&& are_item_diffs(raw@, diffs@)
                &&& rooms_of(listed_rooms(*final(current))) == rooms_applied_all(
                    raw@,
                    rooms_of(listed_rooms(*old(current))),
                )
                &&& listed_rooms(*final(current)) == applied_all(
                    diffs@,
                    listed_rooms(*old(current)),
                )
            },
            MergeEvent::RawEnded => r is Break && listed_rooms(*final(current)) == listed_rooms(
                *old(current),
            ),
            MergeEvent::Notable { reasons, now } => answers_notice(
                listed_rooms(*old(current)),
                reasons,
                now,
                r,
            ) && listed_rooms(*final(current)) == listed_rooms(*old(current)),
            MergeEvent::NotableLagged => r is Continue && listed_rooms(*final(current))
                == listed_rooms(*old(current)),
            MergeEvent::NotableClosed => r is Break && listed_rooms(*final(current))
                == listed_rooms(*old(current)),
        },
{
    match event {
        MergeEvent::Raw(raw) => {
            let diffs = apply_raw_diffs(current, raw);
            MergeAction::Yield(diffs)
        },
        MergeEvent::RawEnded => MergeAction::Break,
        MergeEvent::Notable { reasons, now } => {
            if reasons.recency_stamp && !reasons.others {
                return MergeAction::Continue;
            }
            match find_entry(current, now.room_id.as_str()) {
                Some(index) => {
                    assert(!has_no_entry(listed_rooms(*current), now.room_id@)) by {
                        assert(listed_rooms(*current)[index as int].inner.room_id@ == now.room_id@);
                    }
                    let mut diffs: Vec<VectorDiff<RoomListItem>> = Vec::new();
                    diffs.push(VectorDiff::Replace { index, value: RoomListItem::from_room(now) });
                    MergeAction::Yield(diffs)
                },
                None => MergeAction::Continue,
            }
        },
        MergeEvent::NotableLagged => MergeAction::Continue,
        MergeEvent::NotableClosed => MergeAction::Break,
    }
}

/// The first entry of a room.
fn find_entry(list: &RoomVector, room_id: &str) -> (r: Option<usize>)
    ensures
        match r {
            Some(at) => is_first_entry(listed_rooms(*list), room_id@, at as int),
            None => has_no_entry(listed_rooms(*list), room_id@),
        },
{
    let mut i: usize = 0;
    while i < list.len()
        invariant
            i <= listed_rooms(*list).len(),
            forall|j: int|
                0 <= j < i ==> (#[trigger] listed_rooms(*list)[j]).inner.room_id@ != room_id@,
        decreases listed_rooms(*list).len() - i,
    {
        if let Some(item) = list.get(i) {
            if same_text(item.inner.room_id.as_str(), room_id) {
                return Some(i);
            }
        }
        i += 1;
    }
    None
}

/// Makes changes to the list, and returns them as changes to the entries.
fn apply_raw_diffs(current: &mut RoomVector, raw: Vec<VectorDiff<Room>>) -> (diffs: Vec<
    VectorDiff<RoomListItem>,
>)
    requires
        entries_are_fresh(listed_rooms(*old(current))),
        fit_one_after_the_other(raw@, rooms_of(listed_rooms(*old(current)))),
    ensures
        entries_are_fresh(listed_rooms(*final(current))),
        are_item_diffs(raw@, diffs@),
        rooms_of(listed_rooms(*final(current))) == rooms_applied_all(
            raw@,
            rooms_of(listed_rooms(*old(current))),
        ),
        listed_rooms(*final(current)) == applied_all(diffs@, listed_rooms(*old(current))),
{
    let mut diffs: Vec<VectorDiff<RoomListItem>> = Vec::new();
    let ghost before = listed_rooms(*current);
    let ghost all = raw@;
    for one in it: raw
        invariant
            it.seq() == all,
            before == listed_rooms(*old(current)),
            fit_one_after_the_other(all, rooms_of(before)),
            entries_are_fresh(listed_rooms(*current)),
            are_item_diffs(all.take(it.index() as int), diffs@),
            rooms_of(listed_rooms(*current)) == rooms_applied_all(
                all.take(it.index() as int),
                rooms_of(before),
            ),
            listed_rooms(*current) == applied_all(diffs@, before),
    {
        let ghost k = it.index() as int;
        let ghost now = listed_rooms(*current);
        let ghost earlier = diffs@;
        assert(all[k] == one);
        let diff = make_item_diff(one);
        let copied = copy_item_diff(&diff);
        proof {
            fresh_entries_come_from_their_rooms(now);
            item_diff_follows_the_rooms(one, diff, rooms_of(now));
            assert(copied.applied(now) == diff.applied(now));
            assert(copied.fits(now) == diff.fits(now));
        }
        current.apply(copied);
        diffs.push(diff);
        proof {
            let rooms = one.applied(rooms_of(now));
            assert(listed_rooms(*current) == items_of(rooms));
            assert(rooms_of(items_of(rooms)) =~= rooms);
            assert(all.take(k + 1).drop_last() =~= all.take(k));
            assert(all.take(k + 1).last() == one);
            assert(diffs@.drop_last() =~= earlier);
            assert forall|i: int| 0 <= i < all.take(k + 1).len() implies is_item_diff(
                all.take(k + 1)[i],
                #[trigger] diffs@[i],
            ) by {
                if i < k {
                    assert(diffs@[i] == earlier[i]);
                    assert(is_item_diff(all.take(k)[i], earlier[i]));
                }
            }
        }
    }
    assert(all.take(all.len() as int) =~= all);
    diffs
}

/// Whether an entry is shown: its room is visible, and the filter takes it.
pub open spec fn is_shown(
    item: RoomListItem,
    visible: Option<Set<Seq<char>>>,
    accepted: bool,
) -> bool {
    (visible is Some ==> visible->0.contains(item.inner.room_id@)) && accepted
}

/// Tells whether an entry is shown, from the visible rooms and from what the filter says of it.
pub fn shows_entry(item: &RoomListItem, visible: &Option<IdSet>, accepted: bool) -> (r: bool)
    ensures
        r == is_shown(*item, visible_view(*visible), accepted),
        r <==> accepted && (*visible matches Some(rooms) ==> rooms@.contains(item.inner.room_id@)),
{
    let is_visible = match visible {
        Some(rooms) => rooms.contains(item.inner.room_id.as_str()),
        None => true,
    };
    is_visible && accepted
}

/// The adapters of a stream of entries: whenever a filter is set or the visible rooms change, the
/// stream starts anew with a reset.
#[derive(Debug)]
pub struct DynamicEntries {
    has_filter: bool,
    visible: Option<IdSet>,
}

/// Something that happens to a stream of entries.
#[derive(Debug)]
pub enum DynamicEntriesEvent {
    /// A filter was set.
    FilterSet,
    /// The visible rooms are known anew, whether or not they changed.
    Visible(Option<IdSet>),
}

/// The identifiers of the visible rooms, where there are such.
pub open spec fn visible_view(visible: Option<IdSet>) -> Option<Set<Seq<char>>> {
    match visible {
        Some(rooms) => Some(rooms@),
        None => None,
    }
}

/// Whether a stream of entries starts anew with an event. `started` tells whether a filter has been
/// set, and `visible` are the visible rooms before it.
pub open spec fn resets_on(
    started: bool,
    visible: Option<Set<Seq<char>>>,
    event: DynamicEntriesEvent,
) -> bool {
    match event {
        DynamicEntriesEvent::FilterSet => true,
        DynamicEntriesEvent::Visible(rooms) => started && visible_view(rooms) != visible,
    }
}

/// The visible rooms after an event.
pub open spec fn visible_on(
    visible: Option<Set<Seq<char>>>,
    event: DynamicEntriesEvent,
) -> Option<Set<Seq<char>>> {
    match event {
        DynamicEntriesEvent::FilterSet => visible,
        DynamicEntriesEvent::Visible(rooms) => visible_view(rooms),
    }
}

impl DynamicEntries {
    /// Whether a filter has been set.
    pub closed spec fn is_started(self) -> bool {
        self.has_filter
    }

    /// The visible rooms.
    pub closed spec fn visible(self) -> Option<Set<Seq<char>>> {
        visible_view(self.visible)
    }

    /// A stream without a filter: it yields nothing yet.
    pub fn new(visible: Option<IdSet>) -> (r: Self)
        ensures
            !r.is_started(),
            r.visible() == visible_view(visible),
    {
        DynamicEntries { has_filter: false, visible }
    }

    /// Takes in an event, and tells whether the stream starts anew with a reset.
    pub fn on_event(&mut self, event: DynamicEntriesEvent) -> (resets: bool)
        ensures
            final(self).is_started() == (old(self).is_started() || event is FilterSet),
            final(self).visible() == visible_on(old(self).visible(), event),
            resets == resets_on(old(self).is_started(), old(self).visible(), event),
    {
        match event {
            DynamicEntriesEvent::FilterSet => {
                self.has_filter = true;
                true
            },
            DynamicEntriesEvent::Visible(visible) => {
                let changed = match (&self.visible, &visible) {
                    (Some(before), Some(after)) => !before.same_as(after),
                    (None, None) => false,
                    _ => true,
                };
                self.visible = visible;
                self.has_filter && changed
            },
        }
    }

    /// The entries that pass the visible rooms and the filter, in order. `accepted` is what the
    /// filter says of each.
    pub fn filtered(&self, items: &[RoomListItem], accepted: &[bool]) -> (r: Vec<RoomListItem>)
        requires
            accepted@.len() == items@.len(),
        ensures
            r@ == shown_entries(items@, self.visible(), accepted@),
    {
        let mut shown: Vec<RoomListItem> = Vec::new();
        let mut i: usize = 0;
        while i < items.len()
            invariant
                i <= items@.len(),
                accepted@.len() == items@.len(),
                shown@ == shown_entries(
                    items@.take(i as int),
                    self.visible(),
                    accepted@.take(i as int),
                ),
            decreases items@.len() - i,
        {
            proof {
                assert(items@.take(i + 1).drop_last() =~= items@.take(i as int));
                assert(accepted@.take(i + 1).drop_last() =~= accepted@.take(i as int));
            }
            if shows_entry(&items[i], &self.visible, accepted[i]) {
                shown.push(items[i].clone());
            }
            i += 1;
        }
        proof {
            assert(items@.take(i as int) =~= items@);
            assert(accepted@.take(i as int) =~= accepted@);
        }
        shown
    }
}

/// The entries that are shown, in order.
pub open spec fn shown_entries(
    items: Seq<RoomListItem>,
    visible: Option<Set<Seq<char>>>,
    accepted: Seq<bool>,
) -> Seq<RoomListItem>
    decreases items.len(),
{
    if items.len() == 0 {
        Seq::empty()
    } else {
        let rest = shown_entries(items.drop_last(), visible, accepted.drop_last());
        if is_shown(items.last(), visible, accepted.last()) {
            rest.push(items.last())
        } else {
            rest
        }
    }
}

/// Whether a filter is set by one of the events.
pub open spec fn sets_a_filter(events: Seq<DynamicEntriesEvent>) -> bool {
    exists|i: int| 0 <= i < events.len() && #[trigger] events[i] is FilterSet
}

/// The visible rooms after a number of events.
pub open spec fn visible_after(
    visible: Option<Set<Seq<char>>>,
    events: Seq<DynamicEntriesEvent>,
) -> Option<Set<Seq<char>>>
    decreases events.len(),
{
    if events.len() == 0 {
        visible
    } else {
        visible_on(visible_after(visible, events.drop_last()), events.last())
    }
}

/// Whether a stream has been started after a number of events, one after the other.
pub open spec fn started_after(events: Seq<DynamicEntriesEvent>) -> bool
    decreases events.len(),
{
    events.len() > 0 && (started_after(events.drop_last()) || events.last() is FilterSet)
}

/// A stream of entries yields nothing before a filter is set. From then on it starts anew with every
/// filter, and whenever the set of visible rooms changes, but not where that set stays the same.
/// `events` are those since the stream was made, and `event` is the next.
pub proof fn stream_starts_anew_with_filters_and_visible_rooms(
    visible: Option<Set<Seq<char>>>,
    events: Seq<DynamicEntriesEvent>,
    event: DynamicEntriesEvent,
)
    ensures
        started_after(events) <==> sets_a_filter(events),
        ({
            let before = visible_after(visible, events);
            let after = visible_after(visible, events.push(event));
            let resets = resets_on(started_after(events), before, event);
            &&& resets ==> sets_a_filter(events.push(event))
            &&& event is FilterSet ==> resets && after == before
            &&& event is Visible && sets_a_filter(events) ==> (resets <==> after != before)
        }),
{
    started_with_a_filter(events);
    let all = events.push(event);
    assert(all.drop_last() =~= events);
    if event is FilterSet {
        assert(all[events.len() as int] is FilterSet);
    }
    if sets_a_filter(events) {
        let i = choose|i: int| 0 <= i < events.len() && #[trigger] events[i] is FilterSet;
        assert(all[i] is FilterSet);
    }
}

proof fn started_with_a_filter(events: Seq<DynamicEntriesEvent>)
    ensures
        started_after(events) <==> sets_a_filter(events),
    decreases events.len(),
{
    if events.len() > 0 {
        let rest = events.drop_last();
        started_with_a_filter(rest);
        if sets_a_filter(rest) {
            let i = choose|i: int| 0 <= i < rest.len() && #[trigger] rest[i] is FilterSet;
            assert(events[i] is FilterSet);
        }
        if sets_a_filter(events) && !(events.last() is FilterSet) {
            let i = choose|i: int| 0 <= i < events.len() && #[trigger] events[i] is FilterSet;
            assert(rest[i] is FilterSet);
        }
    }
}

/// Every entry that is shown is one of a visible room.
pub proof fn shown_entries_are_visible(
    items: Seq<RoomListItem>,
    visible: Set<Seq<char>>,
    accepted: Seq<bool>,
)
    ensures
        forall|i: int|
            0 <= i < shown_entries(items, Some(visible), accepted).len() ==> visible.contains(
                (#[trigger] shown_entries(items, Some(visible), accepted)[i]).inner.room_id@,
            ),
    decreases items.len(),
{
    if items.len() > 0 {
        shown_entries_are_visible(items.drop_last(), visible, accepted.drop_last());
    }
}

/// Controls how many entries are shown, and which.
#[derive(Debug)]
pub struct RoomListDynamicEntriesController<F> {
    filter: Option<F>,
    page_size: usize,
    limit: usize,
}

impl<F> RoomListDynamicEntriesController<F> {
    /// The filter that was set last and not taken yet.
    pub closed spec fn pending_filter(self) -> Option<F> {
        self.filter
    }

    /// The number of entries in a page.
    pub closed spec fn page(self) -> usize {
        self.page_size
    }

    /// The number of entries to show.
    pub closed spec fn shown(self) -> usize {
        self.limit
    }

    /// Shows one page.
    pub fn new(page_size: usize) -> (r: Self)
        ensures
            r.pending_filter() is None,
            r.page() == page_size,
            r.shown() == page_size,
    {
        RoomListDynamicEntriesController { filter: None, page_size, limit: page_size }
    }

    /// The number of entries to show.
    pub fn limit(&self) -> (r: usize)
        ensures
            r == self.shown(),
    {
        self.limit
    }

    /// Sets the filter. Where the stream of entries is gone, nothing happens and the result is
    /// `false`.
    pub fn set_filter(&mut self, filter: F, stream_is_alive: bool) -> (r: bool)
        ensures
            r == stream_is_alive,
            stream_is_alive ==> final(self).pending_filter() == Some(filter),
            !stream_is_alive ==> final(self).pending_filter() == old(self).pending_filter(),
            final(self).page() == old(self).page(),
            final(self).shown() == old(self).shown(),
    {
        if !stream_is_alive {
            return false;
        }
        self.filter = Some(filter);
        true
    }

    /// Takes the filter that was set.
    pub fn take_filter(&mut self) -> (r: Option<F>)
        ensures
            r == old(self).pending_filter(),
            final(self).pending_filter() is None,
            final(self).page() == old(self).page(),
            final(self).shown() == old(self).shown(),
    {
        self.filter.take()
    }

    /// Adds one page, as long as there are more rooms than entries to show. The number of entries
    /// may thereby exceed that of rooms, by less than a page. The result is the number to publish:
    /// nothing where it stays the same.
    pub fn add_one_page(&mut self, maximum_number_of_rooms: Option<u32>) -> (r: Option<usize>)
        requires
            maximum_number_of_rooms matches Some(max) ==> old(self).shown() < max ==> old(self).shown() + old(self).page() <= usize::MAX,
        ensures
            final(self).page() == old(self).page(),
            final(self).pending_filter() == old(self).pending_filter(),
            final(self).shown() == limit_after_page(
                old(self).shown(),
                old(self).page(),
                maximum_number_of_rooms,
            ),
            r == if final(self).shown() == old(self).shown() {
                None
            } else {
                Some(final(self).shown())
            },
    {
        let max: usize = match maximum_number_of_rooms {
            Some(max) => max as usize,
            None => {
                return None;
            },
        };
        if self.limit < max {
            let limit = self.limit + self.page_size;
            if limit != self.limit {
                self.limit = limit;
                return Some(limit);
            }
        }
        None
    }

    /// Forgets all pages but the first. The result is the number to publish: nothing where it stays
    /// the same.
    pub fn reset_to_one_page(&mut self) -> (r: Option<usize>)
        ensures
            final(self).page() == old(self).page(),
            final(self).pending_filter() == old(self).pending_filter(),
            final(self).shown() == old(self).page(),
            r == if old(self).shown() == old(self).page() {
                None
            } else {
                Some(old(self).page())
            },
    {
        if self.limit == self.page_size {
            return None;
        }
        self.limit = self.page_size;
        Some(self.page_size)
    }
}

/// The number of entries to show after a page was added.
pub open spec fn limit_after_page(
    limit: usize,
    page_size: usize,
    maximum_number_of_rooms: Option<u32>,
) -> usize {
    match maximum_number_of_rooms {
        Some(max) => if limit < max {
            (limit + page_size) as usize
        } else {
            limit
        },
        None => limit,
    }
}

/// Adding pages never takes an entry away, and exceeds the number of rooms by less than a page.
pub proof fn pages_are_bounded(limit: usize, page_size: usize, max: u32)
    requires
        limit + page_size <= usize::MAX,
    ensures
        limit <= limit_after_page(limit, page_size, Some(max)),
        limit < max ==> limit_after_page(limit, page_size, Some(max)) < max + page_size,
        limit >= max ==> limit_after_page(limit, page_size, Some(max)) == limit,
{
}

/// What is known of a sliding sync list.
#[derive(Clone, Copy, Debug, PartialEq, Eq, Structural)]
pub struct SlidingSyncListInfo {
    /// How much of it is loaded.
    pub state: SlidingSyncListLoadingState,
    /// The number of rooms in it, as far as the server has told.
    pub maximum_number_of_rooms: Option<u32>,
}

/// A list of rooms.
#[derive(Debug)]
pub struct RoomList {
    loading: ListLoading,
    range: RangeLoading,
}

impl RoomList {
    /// What is known of when the list is loaded.
    pub closed spec fn loading(self) -> ListLoading {
        self.loading
    }

    /// What is known of how much of the range is loaded.
    pub closed spec fn range(self) -> RangeLoading {
        self.range
    }

    /// A room list on a sliding sync list, which has to exist.
    pub fn new(
        sliding_sync_list_name: &str,
        sliding_sync_list: Option<SlidingSyncListInfo>,
        room_list_service_state: State,
    ) -> (r: Result<Self, Error>)
        ensures
            match sliding_sync_list {
                Some(list) => {
                    &&& r matches Ok(room_list)
                    &&& !room_list.loading().fetched
                    &&& room_list.loading().published == match list.maximum_number_of_rooms {
                        Some(max) => RoomListLoadingState::Loaded {
                            maximum_number_of_rooms: Some(max),
                        },
                        None => RoomListLoadingState::NotLoaded,
                    }
                    &&& room_list.range() == (RangeLoading {
                        list_state: list.state,
                        service_state: room_list_service_state,
                    })
                },
                None => r matches Err(Error::UnknownList(name)) && name@
                    == sliding_sync_list_name@,
            },
    {
        let list = match sliding_sync_list {
            Some(list) => list,
            None => {
                return Err(Error::UnknownList(sliding_sync_list_name.to_owned()));
            },
        };
        Ok(
            RoomList {
                loading: ListLoading::new(list.maximum_number_of_rooms),
                range: RangeLoading {
                    list_state: list.state,
                    service_state: room_list_service_state,
                },
            },
        )
    }

    /// The loading state of the list.
    pub fn loading_state(&self) -> (r: RoomListLoadingState)
        ensures
            r == self.loading().published,
    {
        self.loading.published
    }

    /// The loading state of the range behind the list.
    pub fn range_loading_state(&self) -> (r: RoomListRangeLoadingState)
        ensures
            r == range_loading(self.range().list_state, self.range().service_state),
    {
        RoomListRangeLoadingState::from_states(&self.range.list_state, &self.range.service_state)
    }

    /// Takes in an event for the loading state, with the current number of rooms. The result is
    /// the loading state to publish.
    pub fn on_loading_event(
        &mut self,
        event: ListLoadingEvent,
        maximum_number_of_rooms: Option<u32>,
    ) -> (r: Option<RoomListLoadingState>)
        ensures
            final(self).range() == old(self).range(),
            final(self).loading().fetched == fetched_after(old(self).loading().fetched, event),
            publishes_loading(old(self).loading().fetched, event) ==> r == Some(
                RoomListLoadingState::Loaded { maximum_number_of_rooms },
            ) && final(self).loading().published == r->0,
            !publishes_loading(old(self).loading().fetched, event) ==> r is None && final(self).loading().published == old(self).loading().published,
            old(self).loading().published is Loaded ==> final(self).loading().published is Loaded,
    {
        self.loading.on_event(event, maximum_number_of_rooms)
    }

    /// Takes in a state of the sliding sync list. The result is the loading state to publish.
    pub fn on_list_state(&mut self, state: SlidingSyncListLoadingState) -> (r:
        RoomListRangeLoadingState)
        ensures
            final(self).loading() == old(self).loading(),
            final(self).range() == (RangeLoading { list_state: state, ..old(self).range() }),
            r == range_loading(state, old(self).range().service_state),
    {
        self.range.on_list_state(state)
    }

    /// Takes in a state of the service. The result is the loading state to publish.
    pub fn on_service_state(&mut self, state: State) -> (r: RoomListRangeLoadingState)
        ensures
            final(self).loading() == old(self).loading(),
            final(self).range() == (RangeLoading { service_state: state, ..old(self).range() }),
            r == range_loading(old(self).range().list_state, state),
    {
        self.range.on_service_state(state)
    }

    /// Reads the current entries without waiting for any stream.
    pub fn current_entries_snapshot(
        &self,
        observed: Option<&AllRoomsObservedIds>,
        rooms: &[Room],
    ) -> (r: RoomListEntriesSnapshot)
        ensures
            is_snapshot_of(r, observed, rooms@),
    {
        let mut entries: Vec<RoomListItem> = Vec::new();
        let ghost visible = visible_rooms(observed);
        let ghost belongs = |room: Room| belongs_to_list(room, visible);
        let mut i: usize = 0;
        proof {
            reveal(Seq::filter);
            assert(entries@ =~= items_of(rooms@.take(0).filter(belongs)));
        }
        while i < rooms.len()
            invariant
                i <= rooms@.len(),
                visible == visible_rooms(observed),
                belongs == (|room: Room| belongs_to_list(room, visible)),
                entries@ == items_of(rooms@.take(i as int).filter(belongs)),
            decreases rooms@.len() - i,
        {
            proof {
                reveal(Seq::filter);
                assert(rooms@.take(i + 1).drop_last() =~= rooms@.take(i as int));
                assert(rooms@.take(i + 1).last() == rooms@[i as int]);
            }
            let is_member = match rooms[i].state {
                RoomState::Joined => true,
                RoomState::Invited => true,
                _ => false,
            };
            let is_visible = match observed {
                Some(named) => named.room_ids.contains(rooms[i].room_id.as_str()),
                None => true,
            };
            if is_member && is_visible {
                entries.push(RoomListItem::from_room(rooms[i].clone()));
            }
            assert(entries@ =~= items_of(rooms@.take(i + 1).filter(belongs)));
            i += 1;
        }
        assert(rooms@.take(i as int) =~= rooms@);
        let (response_sequence, range_fully_loaded, maximum_number_of_rooms) = match observed {
            Some(named) => (
                Some(named.response_sequence),
                Some(named.range_fully_loaded),
                named.maximum_number_of_rooms,
            ),
            None => (None, None, None),
        };
        RoomListEntriesSnapshot {
            entries,
            response_sequence,
            range_fully_loaded,
            maximum_number_of_rooms,
        }
    }

    /// Starts a stream of entries: the rooms as they are, what decides when the stream starts anew,
    /// and the controller of the pages.
    pub fn entries_with_dynamic_adapters<F>(
        &self,
        page_size: usize,
        rooms: Vec<Room>,
        visible: Option<IdSet>,
    ) -> (r: (RoomVector, DynamicEntries, RoomListDynamicEntriesController<F>))
        ensures
            listed_rooms(r.0) == items_of(rooms@),
            entries_are_fresh(listed_rooms(r.0)),
            rooms_of(listed_rooms(r.0)) == rooms@,
            !r.1.is_started(),
            r.1.visible() == visible_view(visible),
            r.2.pending_filter() is None,
            r.2.page() == page_size,
            r.2.shown() == page_size,
    {
        let values = RoomVector::from_items(make_items(rooms));
        proof {
            assert(rooms_of(items_of(rooms@)) =~= rooms@);
        }
        (values, DynamicEntries::new(visible), RoomListDynamicEntriesController::new(page_size))
    }
}

/// Whether a snapshot is the projection of the rooms that belong to the list, with what the owning
/// response said.
pub open spec fn is_snapshot_of(
    snapshot: RoomListEntriesSnapshot,
    observed: Option<&AllRoomsObservedIds>,
    rooms: Seq<Room>,
) -> bool {
    &&& snapshot.items() == items_of(
        rooms.filter(|room: Room| belongs_to_list(room, visible_rooms(observed))),
    )
    &&& match observed {
        Some(named) => {
            &&& snapshot.owner() == Some(named.response_sequence)
            &&& snapshot.range_was_full() == Some(named.range_fully_loaded)
            &&& snapshot.reported_rooms() == named.maximum_number_of_rooms
        },
        None => {
            &&& snapshot.owner() is None
            &&& snapshot.range_was_full() is None
            &&& snapshot.reported_rooms() is None
        },
    }
}

/// A snapshot that a response owns has no entry of a room which no response named.
pub proof fn authoritative_snapshot_excludes_unnamed_rooms(
    snapshot: RoomListEntriesSnapshot,
    observed: Option<&AllRoomsObservedIds>,
    rooms: Seq<Room>,
)
    requires
        is_snapshot_of(snapshot, observed, rooms),
    ensures
        snapshot.owner() is Some <==> observed is Some,
        forall|i: int|
            #![trigger snapshot.items()[i]]
            0 <= i < snapshot.items().len() && observed is Some
                ==> observed->0.room_ids@.contains(snapshot.items()[i].inner.room_id@),
{
    let belongs = |room: Room| belongs_to_list(room, visible_rooms(observed));
    assert forall|i: int|
        #![trigger snapshot.items()[i]]
        0 <= i < snapshot.items().len() && observed
            is Some implies observed->0.room_ids@.contains(
        snapshot.items()[i].inner.room_id@,
    ) by {
        rooms.lemma_filter_pred(belongs, i);
    }
}

/// An entry is shown exactly where its room is visible and the filter takes it. As long as no visible
/// rooms are known, all rooms are visible.
pub proof fn entry_is_shown_where_visible_and_accepted(
    item: RoomListItem,
    visible: Option<Set<Seq<char>>>,
    accepted: bool,
)
    ensures
        visible is None ==> is_shown(item, visible, accepted) == accepted,
        visible matches Some(rooms) ==> (is_shown(item, visible, accepted) <==> accepted
            && rooms.contains(item.inner.room_id@)),
{
}

/// Two entries of the same room, of which the filter says the same, are shown or hidden alike, whatever
/// else they hold: the user's relation to the room, its name or its times make no difference.
pub proof fn entries_of_a_room_are_shown_alike(
    one: RoomListItem,
    other: RoomListItem,
    visible: Option<Set<Seq<char>>>,
    accepted: bool,
)
    requires
        one.inner.room_id@ == other.inner.room_id@,
    ensures
        is_shown(one, visible, accepted) == is_shown(other, visible, accepted),
{
}

/// No entry is lost: each one whose room is visible and that the filter takes is among those shown.
pub proof fn visible_and_accepted_entries_are_all_shown(
    items: Seq<RoomListItem>,
    visible: Option<Set<Seq<char>>>,
    accepted: Seq<bool>,
    i: int,
)
    requires
        accepted.len() == items.len(),
        0 <= i < items.len(),
        accepted[i],
        visible is None || visible->0.contains(items[i].inner.room_id@),
    ensures
        shown_entries(items, visible, accepted).contains(items[i]),
    decreases items.len(),
{
    let rest = shown_entries(items.drop_last(), visible, accepted.drop_last());
    let shown = shown_entries(items, visible, accepted);
    if i < items.len() - 1 {
        visible_and_accepted_entries_are_all_shown(
            items.drop_last(),
            visible,
            accepted.drop_last(),
            i,
        );
        let k = choose|k: int| 0 <= k < rest.len() && rest[k] == items.drop_last()[i];
        assert(shown[k] == items[i]);
    } else {
        assert(shown[rest.len() as int] == items[i]);
    }
}

/// The entries that are shown grow by one more entry exactly where its room is visible and the filter
/// takes it; the entries before it stay in their order.
pub proof fn shown_entries_grow_in_order(
    items: Seq<RoomListItem>,
    visible: Option<Set<Seq<char>>>,
    accepted: Seq<bool>,
    item: RoomListItem,
    takes: bool,
)
    ensures
        shown_entries(Seq::empty(), visible, accepted).len() == 0,
        ({
            let before = shown_entries(items, visible, accepted);
            let now = shown_entries(items.push(item), visible, accepted.push(takes));
            let is_visible = visible is None || visible->0.contains(item.inner.room_id@);
            &&& is_visible && takes ==> now == before.push(item)
            &&& !is_visible || !takes ==> now == before
        }),
{
    assert(items.push(item).drop_last() =~= items);
    assert(accepted.push(takes).drop_last() =~= accepted);
}

/// A room belongs to the list where the user is in it or invited to it, and a response has named it;
/// before the first response every such room does.
pub proof fn joined_and_invited_rooms_belong_to_the_list(
    room: Room,
    visible: Option<Set<Seq<char>>>,
    observed: Option<&AllRoomsObservedIds>,
)
    ensures
        room.state is Left || room.state is Knocked || room.state is Banned ==> !belongs_to_list(
            room,
            visible,
        ),
        room.state is Joined || room.state is Invited ==> {
            &&& visible is None ==> belongs_to_list(room, visible)
            &&& visible matches Some(rooms) ==> (belongs_to_list(room, visible) <==> rooms.contains(
                room.room_id@,
            ))
        },
        visible_rooms(observed) is Some <==> observed is Some,
        observed matches Some(named) ==> visible_rooms(observed)->0 == named.room_ids@,
{
}

/// The entries of a snapshot grow by the entry of one more room exactly where that room belongs to the
/// list, and carry what is known of their rooms.
pub proof fn snapshot_holds_every_room_that_belongs_to_the_list(
    snapshot: RoomListEntriesSnapshot,
    other: RoomListEntriesSnapshot,
    observed: Option<&AllRoomsObservedIds>,
    rooms: Seq<Room>,
    room: Room,
)
    requires
        is_snapshot_of(snapshot, observed, rooms),
        is_snapshot_of(other, observed, rooms.push(room)),
    ensures
        rooms.len() == 0 ==> snapshot.items().len() == 0,
        ({
            let is_member = room.state is Joined || room.state is Invited;
            let is_visible = observed is None || observed->0.room_ids@.contains(room.room_id@);
            &&& is_member && is_visible ==> {
                &&& other.items().len() == snapshot.items().len() + 1
                &&& other.items().drop_last() == snapshot.items()
                &&& other.items().last().inner == room
            }
            &&& !is_member || !is_visible ==> other.items() == snapshot.items()
        }),
        observed is None ==> snapshot.owner() is None && snapshot.range_was_full() is None
            && snapshot.reported_rooms() is None,
        observed matches Some(named) ==> {
            &&& snapshot.owner() == Some(named.response_sequence)
            &&& snapshot.range_was_full() == Some(named.range_fully_loaded)
            &&& snapshot.reported_rooms() == named.maximum_number_of_rooms
        },
{
    reveal(Seq::filter);
    let belongs = |room: Room| belongs_to_list(room, visible_rooms(observed));
    assert(rooms.push(room).drop_last() =~= rooms);
    assert(rooms.push(room).last() == room);
    if belongs_to_list(room, visible_rooms(observed)) {
        assert(items_of(rooms.filter(belongs).push(room)).drop_last() =~= items_of(
            rooms.filter(belongs),
        ));
    }
}

/// The entry of a room holds the room, and copies of what is known of it.
pub proof fn entry_copies_what_is_known_of_its_room(rooms: Seq<Room>, i: int)
    requires
        0 <= i < rooms.len(),
    ensures
        items_of(rooms).len() == rooms.len(),
        items_of(rooms)[i] == item_of(rooms[i]),
        ({
            let room = rooms[i];
            let item = item_of(room);
            &&& item.inner == room
            &&& item.cached_latest_event_timestamp == room.latest_event_timestamp
            &&& item.cached_latest_event_is_unsent == room.latest_event_is_unsent
            &&& item.cached_recency_stamp == room.recency_stamp
            &&& item.cached_display_name == room.display_name
            &&& item.cached_is_space == room.is_space
            &&& item.cached_state == room.state
        }),
        rooms_of(items_of(rooms)) == rooms,
        entries_are_fresh(items_of(rooms)),
{
    assert(rooms_of(items_of(rooms)) =~= rooms);
}

/// A range is fully loaded only while the service runs and its list is fully loaded.
pub proof fn range_is_loaded_while_the_service_runs(
    list_state: SlidingSyncListLoadingState,
    service_state: State,
)
    ensures
        range_loading(list_state, service_state) is FullyLoaded ==> list_state is FullyLoaded
            && service_state is Running,
        list_state is FullyLoaded && service_state is Running ==> range_loading(
            list_state,
            service_state,
        ) is FullyLoaded,
{
}

/// Something counts as fetched from the first state on in which the service loads rooms, or once the
/// service is gone, and stays so.
pub proof fn list_is_fetched_once_the_service_loads(fetched: bool, event: ListLoadingEvent)
    ensures
        fetched ==> fetched_after(fetched, event),
        event is ServiceEnded ==> fetched_after(fetched, event),
        event is MaximumNumberOfRooms ==> fetched_after(fetched, event) == fetched,
        event matches ListLoadingEvent::ServiceState(state) ==> {
            &&& state is SettingUp || state is Recovering || state is Running ==> fetched_after(
                fetched,
                event,
            )
            &&& state is Init || state is Error || state is Terminated ==> fetched_after(
                fetched,
                event,
            ) == fetched
        },
{
}

/// The event by which a list is first fetched publishes that it is loaded. After it, every change to
/// the number of rooms does, and nothing else; before it nothing does.
pub proof fn loading_is_published_once_and_with_each_number_of_rooms(
    fetched: bool,
    event: ListLoadingEvent,
)
    ensures
        !fetched ==> publishes_loading(fetched, event) == fetched_after(fetched, event),
        fetched ==> publishes_loading(fetched, event) == (event is MaximumNumberOfRooms),
        publishes_loading(fetched, event) ==> fetched_after(fetched, event),
{
}

/// A notice about a room refreshes its first entry, unless only the recency stamp changed or the room is
/// not listed. The notice is never answered in another way.
pub proof fn notice_refreshes_the_first_entry_of_its_room(
    list: Seq<RoomListItem>,
    reasons: RoomInfoNotableUpdateReasons,
    now: Room,
    action: MergeAction,
    i: int,
)
    requires
        answers_notice(list, reasons, now, action),
        0 <= i < list.len(),
        list[i].inner.room_id@ == now.room_id@,
        forall|j: int| 0 <= j < i ==> (#[trigger] list[j]).inner.room_id@ != now.room_id@,
    ensures
        reasons.recency_stamp && !reasons.others ==> action is Continue,
        !reasons.recency_stamp || reasons.others ==> {
            &&& action matches MergeAction::Yield(diffs)
            &&& diffs@.len() == 1
            &&& diffs@[0] matches VectorDiff::Replace { index, value }
            &&& index == i
            &&& value.inner == now
            &&& value == item_of(now)
        },
{
    if !(reasons.recency_stamp && !reasons.others) {
        assert(!has_no_entry(list, now.room_id@));
        let index = action->Yield_0@[0]->Replace_index as int;
        if index < i {
            assert(list[index].inner.room_id@ != now.room_id@);
        }
        if i < index {
            assert(list[i].inner.room_id@ != now.room_id@);
        }
    }
}

/// A notice about a room that is not listed changes nothing.
pub proof fn notice_about_an_unlisted_room_changes_nothing(
    list: Seq<RoomListItem>,
    reasons: RoomInfoNotableUpdateReasons,
    now: Room,
    action: MergeAction,
)
    requires
        answers_notice(list, reasons, now, action),
        forall|j: int| 0 <= j < list.len() ==> (#[trigger] list[j]).inner.room_id@ != now.room_id@,
    ensures
        action is Continue,
{
    assert(has_no_entry(list, now.room_id@));
}

/// Changes are made one after the other, each to what the ones before it left.
pub proof fn changes_are_made_in_turn(
    diffs: Seq<VectorDiff<RoomListItem>>,
    diff: VectorDiff<RoomListItem>,
    list: Seq<RoomListItem>,
    raws: Seq<VectorDiff<Room>>,
    raw: VectorDiff<Room>,
    rooms: Seq<Room>,
)
    ensures
        applied_all(Seq::empty(), list) == list,
        applied_all(diffs.push(diff), list) == diff.applied(applied_all(diffs, list)),
        rooms_applied_all(Seq::empty(), rooms) == rooms,
        rooms_applied_all(raws.push(raw), rooms) == raw.applied(rooms_applied_all(raws, rooms)),
        are_item_diffs(raws.push(raw), diffs.push(diff)) <==> are_item_diffs(raws, diffs)
            && is_item_diff(raw, diff),
{
    assert(diffs.push(diff).drop_last() =~= diffs);
    assert(raws.push(raw).drop_last() =~= raws);
    let more = diffs.push(diff);
    let more_raws = raws.push(raw);
    if are_item_diffs(more_raws, more) {
        assert(is_item_diff(more_raws[raws.len() as int], more[raws.len() as int]));
        assert forall|i: int| 0 <= i < raws.len() implies is_item_diff(
            raws[i],
            #[trigger] diffs[i],
        ) by {
            assert(is_item_diff(more_raws[i], more[i]));
        }
    }
    if are_item_diffs(raws, diffs) && is_item_diff(raw, diff) {
        assert forall|i: int| 0 <= i < more_raws.len() implies is_item_diff(
            more_raws[i],
            #[trigger] more[i],
        ) by {
            if i < raws.len() {
                assert(is_item_diff(raws[i], diffs[i]));
            }
        }
    }
}

/// A stream starts anew with every filter. Where a filter was set before, it also does so exactly where
/// the visible rooms are others than before. The visible rooms are those that were told last.
pub proof fn stream_follows_the_visible_rooms(
    started: bool,
    visible: Option<Set<Seq<char>>>,
    rooms: Option<IdSet>,
)
    ensures
        resets_on(started, visible, DynamicEntriesEvent::FilterSet),
        visible_on(visible, DynamicEntriesEvent::FilterSet) == visible,
        !started ==> !resets_on(started, visible, DynamicEntriesEvent::Visible(rooms)),
        started ==> (resets_on(started, visible, DynamicEntriesEvent::Visible(rooms)) <==> match (
            visible,
            rooms,
        ) {
            (Some(before), Some(now)) => before != now@,
            (None, None) => false,
            _ => true,
        }),
        rooms is None ==> visible_on(visible, DynamicEntriesEvent::Visible(rooms)) is None,
        rooms matches Some(now) ==> visible_on(visible, DynamicEntriesEvent::Visible(rooms))
            == Some(now@),
{
}

/// A page is added whole as long as fewer entries are shown than there are rooms, and not at all
/// otherwise, nor where the number of rooms is not known.
pub proof fn page_is_added_while_rooms_are_left(limit: usize, page_size: usize, max: u32)
    requires
        limit + page_size <= usize::MAX,
    ensures
        limit < max ==> limit_after_page(limit, page_size, Some(max)) == limit + page_size,
        limit >= max ==> limit_after_page(limit, page_size, Some(max)) == limit,
        limit_after_page(limit, page_size, None) == limit,
{
}

/// Snapshots that agree in what their response said, and in how many entries they have, are described
/// alike: no room shows in a description.
pub proof fn description_hides_the_rooms(
    one: RoomListEntriesSnapshot,
    other: RoomListEntriesSnapshot,
)
    requires
        one.owner() == other.owner(),
        one.range_was_full() == other.range_was_full(),
        one.reported_rooms() == other.reported_rooms(),
        one.items().len() == other.items().len(),
    ensures
        one.description() == other.description(),
{
}

/// The text of an optional value tells whether there is one, and holds it.
pub proof fn text_of_an_optional_value_holds_it(value: Option<Seq<char>>)
    ensures
        value is None ==> option_text(value) == "None"@,
        value matches Some(text) ==> option_text(value).len() == text.len() + 6 && option_text(
            value,
        ).subrange(5, 5 + text.len() as int) == text,
{
    reveal_strlit("Some(");
    reveal_strlit(")");
    if let Some(text) = value {
        assert(option_text(value).subrange(5, 5 + text.len() as int) =~= text);
    }
}

/// A snapshot without a response is described as such, whatever its entries are; one with a response is
/// described by what the response said.
pub proof fn description_tells_what_the_response_said(snapshot: RoomListEntriesSnapshot)
    ensures
        snapshot.owner() is None && snapshot.range_was_full() is None && snapshot.reported_rooms()
            is None ==> snapshot.description()
            == "RoomListEntriesSnapshot { response_sequence: None, range_fully_loaded: None, maximum_number_of_rooms: None, entry_count: "@
            + decimal(snapshot.items().len()) + " }"@,
        snapshot.owner() matches Some(n) ==> (snapshot.range_was_full() matches Some(full)
            ==> snapshot.description() == "RoomListEntriesSnapshot { response_sequence: Some("@
            + decimal(n as nat) + "), range_fully_loaded: "@ + (if full {
            "Some(true), maximum_number_of_rooms: "@
        } else {
            "Some(false), maximum_number_of_rooms: "@
        }) + (match snapshot.reported_rooms() {
            Some(rooms) => "Some("@ + decimal(rooms as nat) + "), entry_count: "@,
            None => "None, entry_count: "@,
        }) + decimal(snapshot.items().len()) + " }"@),
{
    reveal_strlit("RoomListEntriesSnapshot { response_sequence: ");
    reveal_strlit("RoomListEntriesSnapshot { response_sequence: Some(");
    reveal_strlit("None");
    reveal_strlit("Some(");
    reveal_strlit(")");
    reveal_strlit("), range_fully_loaded: ");
    reveal_strlit(", range_fully_loaded: ");
    reveal_strlit("true");
    reveal_strlit("false");
    reveal_strlit(", maximum_number_of_rooms: ");
    reveal_strlit("Some(true), maximum_number_of_rooms: ");
    reveal_strlit("Some(false), maximum_number_of_rooms: ");
    reveal_strlit(", entry_count: ");
    reveal_strlit("), entry_count: ");
    reveal_strlit("None, entry_count: ");
    reveal_strlit(
        "RoomListEntriesSnapshot { response_sequence: None, range_fully_loaded: None, maximum_number_of_rooms: None, entry_count: ",
    );
    let count = decimal(snapshot.items().len());
    assert("RoomListEntriesSnapshot { response_sequence: "@ + "None"@ + ", range_fully_loaded: "@
        + "None"@ + ", maximum_number_of_rooms: "@ + "None"@ + ", entry_count: "@
        =~= "RoomListEntriesSnapshot { response_sequence: None, range_fully_loaded: None, maximum_number_of_rooms: None, entry_count: "@);
    if let Some(n) = snapshot.owner() {
        if let Some(full) = snapshot.range_was_full() {
            let first = "RoomListEntriesSnapshot { response_sequence: "@ + option_text(
                Some(decimal(n as nat)),
            ) + ", range_fully_loaded: "@;
            assert(first =~= "RoomListEntriesSnapshot { response_sequence: Some("@ + decimal(
                n as nat,
            ) + "), range_fully_loaded: "@);
            let second = option_text(
                Some(
                    if full {
                        "true"@
                    } else {
                        "false"@
                    },
                ),
            ) + ", maximum_number_of_rooms: "@;
            let told = if full {
                "Some(true), maximum_number_of_rooms: "@
            } else {
                "Some(false), maximum_number_of_rooms: "@
            };
            assert(second =~= told);
            let third = match snapshot.reported_rooms() {
                Some(rooms) => "Some("@ + decimal(rooms as nat) + "), entry_count: "@,
                None => "None, entry_count: "@,
            };
            assert(option_text(
                match snapshot.reported_rooms() {
                    Some(n) => Some(decimal(n as nat)),
                    None => None,
                },
            ) + ", entry_count: "@ =~= third);
            assert(snapshot.description() =~= first + second + third + count + " }"@);
        }
    }
}

/// A change to the rooms is handed on as the same change to their entries: of the same kind, at the same
/// place, and with the entries of the same rooms.
pub proof fn change_of_entries_is_that_of_their_rooms(
    raw: VectorDiff<Room>,
    diff: VectorDiff<RoomListItem>,
)
    requires
        is_item_diff(raw, diff),
    ensures
        raw is Clear <==> diff is Clear,
        raw is PopFront <==> diff is PopFront,
        raw is PopBack <==> diff is PopBack,
        raw matches VectorDiff::Append { values } ==> (diff matches VectorDiff::Append {
            values: items,
        } && items@ == items_of(values@)),
        raw matches VectorDiff::Reset { values } ==> (diff matches VectorDiff::Reset {
            values: items,
        } && items@ == items_of(values@)),
        raw matches VectorDiff::PushFront { value } ==> (diff matches VectorDiff::PushFront {
            value: item,
        } && item == item_of(value)),
        raw matches VectorDiff::PushBack { value } ==> (diff matches VectorDiff::PushBack {
            value: item,
        } && item == item_of(value)),
        raw matches VectorDiff::Insert { index, value } ==> (diff matches VectorDiff::Insert {
            index: at,
            value: item,
        } && at == index && item == item_of(value)),
        raw matches VectorDiff::Replace { index, value } ==> (diff matches VectorDiff::Replace {
            index: at,
            value: item,
        } && at == index && item == item_of(value)),
        raw matches VectorDiff::Remove { index } ==> (diff matches VectorDiff::Remove { index: at }
            && at == index),
        raw matches VectorDiff::Truncate { length } ==> (diff matches VectorDiff::Truncate {
            length: kept,
        } && kept == length),
{
}

} // verus!
