//! Evidence of the responses that were committed for the list of all rooms, and the rooms that
//! these responses named.

use vstd::prelude::*;

use crate::keyed::{text_set, IdSet};

verus! {

/// Evidence within this process that a response for all rooms was committed.
///
/// It holds neither the position of the sync nor any room identifier.
#[derive(Clone, Copy, Debug, PartialEq, Eq, Structural)]
pub struct CommittedAllRoomsResponse {
    /// The number of the response; later responses have higher numbers.
    pub sequence: u64,
    /// Whether the whole range of rooms was loaded.
    pub range_fully_loaded: bool,
    /// Whether the response carried a position.
    pub pos_present: bool,
}

impl Default for CommittedAllRoomsResponse {
    fn default() -> (r: Self)
        ensures
            r == no_response(),
    {
        CommittedAllRoomsResponse { sequence: 0, range_fully_loaded: false, pos_present: false }
    }
}

/// What stands for the time before the first response.
pub open spec fn no_response() -> CommittedAllRoomsResponse {
    CommittedAllRoomsResponse { sequence: 0, range_fully_loaded: false, pos_present: false }
}

impl CommittedAllRoomsResponse {
    /// Return the number of the response within this process.
    pub fn sequence(self) -> (r: u64)
        ensures
            r == self.sequence,
    {
        self.sequence
    }

    /// Whether the whole range of rooms was loaded.
    pub fn range_fully_loaded(self) -> (r: bool)
        ensures
            r == self.range_fully_loaded,
    {
        self.range_fully_loaded
    }

    /// Whether the response carried a position.
    pub fn pos_present(self) -> (r: bool)
        ensures
            r == self.pos_present,
    {
        self.pos_present
    }
}

/// The latest committed response.
#[derive(Debug)]
pub struct CommittedAllRoomsResponseObservable {
    latest: CommittedAllRoomsResponse,
}

impl View for CommittedAllRoomsResponseObservable {
    type V = CommittedAllRoomsResponse;

    closed spec fn view(&self) -> CommittedAllRoomsResponse {
        self.latest
    }
}

impl CommittedAllRoomsResponseObservable {
    /// No response was committed.
    pub fn new() -> (r: Self)
        ensures
            r@ == no_response(),
    {
        CommittedAllRoomsResponseObservable { latest: CommittedAllRoomsResponse::default() }
    }

    /// The latest committed response.
    pub fn get(&self) -> (r: CommittedAllRoomsResponse)
        ensures
            r == self@,
    {
        self.latest
    }

    /// Counts a committed response. The result is the evidence to publish.
    pub fn advance(&mut self, range_fully_loaded: bool) -> (r: CommittedAllRoomsResponse)
        requires
            old(self)@.sequence < u64::MAX,
        ensures
            r == (CommittedAllRoomsResponse {
                sequence: (old(self)@.sequence + 1) as u64,
                range_fully_loaded,
                pos_present: true,
            }),
            final(self)@ == r,
    {
        self.latest = CommittedAllRoomsResponse {
            sequence: self.latest.sequence + 1,
            range_fully_loaded,
            pos_present: true,
        };
        self.latest
    }
}

/// The rooms that committed responses named, with what the last of these responses said.
#[derive(Debug)]
pub struct AllRoomsObservedIds {
    /// The number of the last response.
    pub response_sequence: u64,
    /// Whether the whole range of rooms was loaded by then.
    pub range_fully_loaded: bool,
    /// The number of rooms that the server reported.
    pub maximum_number_of_rooms: Option<u32>,
    /// The rooms that the responses named.
    pub room_ids: IdSet,
}

/// The rooms that own the list of all rooms: none before the first response.
#[derive(Debug)]
pub struct AllRoomsObservedIdsObservable {
    current: Option<AllRoomsObservedIds>,
    replace_next: bool,
}

impl AllRoomsObservedIdsObservable {
    /// What the responses so far have named.
    pub closed spec fn observed(self) -> Option<AllRoomsObservedIds> {
        self.current
    }

    /// Whether the next response replaces what was named.
    pub closed spec fn is_new_cycle(self) -> bool {
        self.replace_next
    }

    /// The set of rooms is a proper one.
    pub closed spec fn wf(self) -> bool {
        self.current matches Some(observed) ==> observed.room_ids.wf()
    }

    /// The rooms that are visible: all of them where no response has been committed.
    pub open spec fn visible(self) -> Option<Set<Seq<char>>> {
        match self.observed() {
            Some(observed) => Some(observed.room_ids@),
            None => None,
        }
    }

    /// No response was committed.
    pub fn new() -> (r: Self)
        ensures
            r.wf(),
            r.observed() is None,
            !r.is_new_cycle(),
    {
        AllRoomsObservedIdsObservable { current: None, replace_next: false }
    }

    /// Starts a new cycle. What was named stays until the next response replaces it.
    pub fn begin_cycle(&mut self)
        requires
            old(self).wf(),
        ensures
            final(self).wf(),
            final(self).observed() == old(self).observed(),
            final(self).is_new_cycle(),
    {
        self.replace_next = true;
    }

    /// Takes in a committed response. The first response of a cycle replaces what was named, a
    /// later one adds to it. The result tells whether the set of visible rooms changed.
    pub fn accumulate(
        &mut self,
        response_sequence: u64,
        range_fully_loaded: bool,
        maximum_number_of_rooms: Option<u32>,
        rooms: &[String],
    ) -> (changed: bool)
        requires
            old(self).wf(),
        ensures
            final(self).wf(),
            !final(self).is_new_cycle(),
            final(self).observed() matches Some(observed) && {
                &&& observed.response_sequence == response_sequence
                &&& observed.range_fully_loaded == range_fully_loaded
                &&& observed.maximum_number_of_rooms == maximum_number_of_rooms
                &&& observed.room_ids@ == rooms_after(
                    old(self).visible(),
                    old(self).is_new_cycle(),
                    text_set(rooms@),
                )
            },
            changed == (final(self).visible() != old(self).visible()),
    {
        let mut room_ids = match &self.current {
            Some(observed) => if self.replace_next {
                IdSet::new()
            } else {
                observed.room_ids.clone()
            },
            None => IdSet::new(),
        };
        room_ids.extend(rooms);
        assert(room_ids@ =~= rooms_after(
            old(self).visible(),
            old(self).is_new_cycle(),
            text_set(rooms@),
        ));
        let changed = match &self.current {
            Some(observed) => !observed.room_ids.same_as(&room_ids),
            None => true,
        };
        self.replace_next = false;
        self.current = Some(
            AllRoomsObservedIds {
                response_sequence,
                range_fully_loaded,
                maximum_number_of_rooms,
                room_ids,
            },
        );
        changed
    }

    /// What the responses so far have named, `None` before the first.
    pub fn current(&self) -> (r: Option<&AllRoomsObservedIds>)
        ensures
            match r {
                Some(observed) => self.observed() == Some(*observed),
                None => self.observed() is None,
            },
    {
        match &self.current {
            Some(observed) => Some(observed),
            None => None,
        }
    }
}

/// The visible rooms after a response.
pub open spec fn rooms_after(
    visible: Option<Set<Seq<char>>>,
    new_cycle: bool,
    named: Set<Seq<char>>,
) -> Set<Seq<char>> {
    match visible {
        Some(rooms) => if new_cycle {
            named
        } else {
            rooms.union(named)
        },
        None => named,
    }
}

/// A response that names only rooms which are visible already leaves the set of visible rooms as it
/// is, unless it starts a new cycle.
pub proof fn known_rooms_do_not_change_what_is_visible(
    visible: Set<Seq<char>>,
    named: Set<Seq<char>>,
)
    requires
        named.subset_of(visible),
    ensures
        rooms_after(Some(visible), false, named) == visible,
{
    assert(rooms_after(Some(visible), false, named) =~= visible);
}

/// A room that no response of the current cycle named is not visible.
pub proof fn visible_rooms_were_named(
    visible: Option<Set<Seq<char>>>,
    new_cycle: bool,
    named: Set<Seq<char>>,
    room: Seq<char>,
)
    requires
        rooms_after(visible, new_cycle, named).contains(room),
    ensures
        named.contains(room) || (!new_cycle && visible is Some && visible->0.contains(room)),
{
}

/// A room is visible after a response exactly where the response named it, or where it was visible
/// before and the response does not start a new cycle.
pub proof fn room_is_visible_where_it_was_named(
    visible: Option<Set<Seq<char>>>,
    new_cycle: bool,
    named: Set<Seq<char>>,
    room: Seq<char>,
)
    ensures
        named.contains(room) ==> rooms_after(visible, new_cycle, named).contains(room),
        !named.contains(room) ==> (rooms_after(visible, new_cycle, named).contains(room)
            <==> !new_cycle && visible is Some && visible->0.contains(room)),
{
}

/// Before the first response nothing was counted, loaded or positioned, and no set of visible rooms is
/// known. After it the visible rooms are those that were named.
pub proof fn nothing_is_known_before_the_first_response(observable: AllRoomsObservedIdsObservable)
    ensures
        no_response().sequence == 0,
        !no_response().range_fully_loaded,
        !no_response().pos_present,
        observable.visible() is None <==> observable.observed() is None,
        observable.observed() matches Some(named) ==> observable.visible() == Some(named.room_ids@),
{
}

} // verus!
