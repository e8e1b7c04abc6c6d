//! Room subscriptions: which rooms are subscribed, and the checkpoints of the responses that came
//! for them.

use vstd::prelude::*;
use vstd::string::*;

use crate::keyed::{text_set, IdSet, KeyedList};
use crate::text::{decimal, texts, write_decimal};

verus! {

/// Generation within this process of one complete set of room subscriptions.
#[derive(Clone, Copy, Debug, PartialEq, Eq, PartialOrd, Ord, Structural)]
pub struct RoomSubscriptionGeneration(pub u64);

impl RoomSubscriptionGeneration {
    /// Return the number of the generation.
    pub fn get(self) -> (r: u64)
        ensures
            r == self.0,
    {
        self.0
    }
}

/// What the event cache saw of a room's timeline in a sync response.
#[derive(Clone, Copy, Debug, PartialEq, Eq, Structural)]
pub struct RoomTimelineSyncObservation {
    /// The number of the observation; later ones have higher numbers.
    pub sequence: u64,
    /// Whether the response left a gap in the timeline.
    pub inserted_gap: bool,
}

/// Provenance checkpoint for a room in a subscription response.
pub struct RoomSubscriptionCheckpoint {
    /// Generation of the subscription request.
    pub subscription_generation: RoomSubscriptionGeneration,
    /// Number of the committed response.
    pub response_sequence: u64,
    /// The room.
    pub room_id: String,
    /// What was new in the timeline.
    pub timeline: Option<RoomTimelineSyncObservation>,
}

impl RoomSubscriptionCheckpoint {
    /// Generation of the subscription request that produced this response.
    pub fn subscription_generation(&self) -> (r: RoomSubscriptionGeneration)
        ensures
            r == self.subscription_generation,
    {
        self.subscription_generation
    }

    /// Committed response that produced this checkpoint.
    pub fn response_sequence(&self) -> (r: u64)
        ensures
            r == self.response_sequence,
    {
        self.response_sequence
    }

    /// Room associated with this checkpoint.
    pub fn room_id(&self) -> (r: &str)
        ensures
            r@ == self.room_id@,
    {
        self.room_id.as_str()
    }

    /// Timeline observation that was committed after the subscription baseline.
    pub fn timeline(&self) -> (r: Option<RoomTimelineSyncObservation>)
        ensures
            r == self.timeline,
    {
        self.timeline
    }

    /// The text that describes the checkpoint. It does not depend on the room.
    pub open spec fn description(self) -> Seq<char> {
        "RoomSubscriptionCheckpoint { subscription_generation: RoomSubscriptionGeneration("@
            + decimal(self.subscription_generation.0 as nat) + "), response_sequence: "@ + decimal(
            self.response_sequence as nat,
        ) + ", has_timeline: "@ + (if self.timeline is Some {
            "true"@
        } else {
            "false"@
        }) + " }"@
    }

    /// Describes the checkpoint without naming the room.
    pub fn describe(&self) -> (r: String)
        ensures
            r@ == self.description(),
    {
        let mut text =
            "RoomSubscriptionCheckpoint { subscription_generation: RoomSubscriptionGeneration(".to_owned();
        text.append(write_decimal(self.subscription_generation.0).as_str());
        text.append("), response_sequence: ");
        text.append(write_decimal(self.response_sequence).as_str());
        text.append(", has_timeline: ");
        if self.timeline.is_some() {
            text.append("true");
        } else {
            text.append("false");
        }
        text.append(" }");
        text
    }
}

/// Checkpoints of different rooms that agree otherwise have the same description.
pub proof fn description_hides_the_room(
    one: RoomSubscriptionCheckpoint,
    other: RoomSubscriptionCheckpoint,
)
    requires
        one.subscription_generation == other.subscription_generation,
        one.response_sequence == other.response_sequence,
        one.timeline is Some == other.timeline is Some,
    ensures
        one.description() == other.description(),
{
}

/// The rooms that are subscribed.
pub struct RoomSubscriptionState {
    /// The number of the current set of subscriptions; zero before the first.
    pub generation: u64,
    /// The rooms of that set.
    pub active_rooms: IdSet,
}

impl RoomSubscriptionState {
    /// No room has been subscribed.
    pub fn new() -> (r: Self)
        ensures
            r.generation == 0,
            r.active_rooms.wf(),
            r.active_rooms@ == Set::<Seq<char>>::empty(),
    {
        RoomSubscriptionState { generation: 0, active_rooms: IdSet::new() }
    }

    /// The text that describes the subscriptions. It tells of the rooms only how many they are.
    pub open spec fn description(self) -> Seq<char> {
        "RoomSubscriptionState { generation: "@ + decimal(self.generation as nat)
            + ", active_room_count: "@ + decimal(self.active_rooms@.len()) + " }"@
    }

    /// Describes the subscriptions without naming the rooms.
    pub fn describe(&self) -> (r: String)
        requires
            self.active_rooms.wf(),
        ensures
            r@ == self.description(),
    {
        let mut text = "RoomSubscriptionState { generation: ".to_owned();
        text.append(write_decimal(self.generation).as_str());
        text.append(", active_room_count: ");
        text.append(write_decimal(self.active_rooms.len() as u64).as_str());
        text.append(" }");
        text
    }
}

impl Clone for RoomSubscriptionState {
    fn clone(&self) -> (r: Self)
        ensures
            r.generation == self.generation,
            r.active_rooms@ == self.active_rooms@,
            r.active_rooms.wf() == self.active_rooms.wf(),
    {
        RoomSubscriptionState {
            generation: self.generation,
            active_rooms: self.active_rooms.clone(),
        }
    }
}

/// The subscriptions that one sync iteration runs with.
pub struct RoomSubscriptionIteration {
    /// The number of the set of subscriptions.
    pub generation: RoomSubscriptionGeneration,
    /// The rooms of that set.
    pub active_rooms: IdSet,
    /// For each of these rooms, the last observation before the iteration; zero for none.
    pub observation_baselines: KeyedList<u64>,
}

/// The last observation of a room; zero for none.
pub open spec fn baseline_of(
    latest: Map<Seq<char>, RoomTimelineSyncObservation>,
    room: Seq<char>,
) -> u64 {
    if latest.contains_key(room) {
        latest[room].sequence
    } else {
        0
    }
}

impl RoomSubscriptionIteration {
    /// The sets and maps are proper ones.
    pub open spec fn wf(self) -> bool {
        self.active_rooms.wf() && self.observation_baselines.wf()
    }

    /// The baseline of a room; zero for a room that has none.
    pub open spec fn baseline(self, room: Seq<char>) -> u64 {
        if self.observation_baselines@.contains_key(room) {
            self.observation_baselines@[room]
        } else {
            0
        }
    }
}

/// The number of the set of subscriptions that follows. It is never zero.
pub open spec fn next_generation(generation: u64) -> u64 {
    if generation == u64::MAX {
        1
    } else {
        (generation + 1) as u64
    }
}

/// A room of a response, with what was new in its timeline.
pub type CheckpointAddition = (String, Option<RoomTimelineSyncObservation>);

/// The checkpoint of a room of a response.
pub open spec fn checkpoint_for(
    generation: RoomSubscriptionGeneration,
    response_sequence: u64,
    addition: CheckpointAddition,
) -> RoomSubscriptionCheckpoint {
    RoomSubscriptionCheckpoint {
        subscription_generation: generation,
        response_sequence,
        room_id: addition.0,
        timeline: addition.1,
    }
}

/// The checkpoints after a response: those of its rooms are replaced.
pub open spec fn with_additions(
    retained: Map<Seq<char>, RoomSubscriptionCheckpoint>,
    generation: RoomSubscriptionGeneration,
    response_sequence: u64,
    additions: Seq<CheckpointAddition>,
) -> Map<Seq<char>, RoomSubscriptionCheckpoint>
    decreases additions.len(),
{
    if additions.len() == 0 {
        retained
    } else {
        with_additions(retained, generation, response_sequence, additions.drop_last()).insert(
            additions.last().0@,
            checkpoint_for(generation, response_sequence, additions.last()),
        )
    }
}

/// The subscribed rooms and the latest checkpoint of each.
pub struct RoomSubscriptions {
    state: RoomSubscriptionState,
    checkpoints: KeyedList<RoomSubscriptionCheckpoint>,
}

impl RoomSubscriptions {
    /// The sets and maps are proper ones.
    pub closed spec fn wf(self) -> bool {
        self.state.active_rooms.wf() && self.checkpoints.wf()
    }

    /// The number of the current set of subscriptions.
    pub closed spec fn generation(self) -> u64 {
        self.state.generation
    }

    /// The rooms that are subscribed.
    pub closed spec fn active_rooms(self) -> Set<Seq<char>> {
        self.state.active_rooms@
    }

    /// The latest checkpoint of each room.
    pub closed spec fn retained(self) -> Map<Seq<char>, RoomSubscriptionCheckpoint> {
        self.checkpoints@
    }

    /// Whether an iteration runs with the current set of subscriptions.
    pub open spec fn is_current(self, iteration: RoomSubscriptionIteration) -> bool {
        self.generation() == iteration.generation.0 && self.active_rooms()
            == iteration.active_rooms@
    }

    /// No room has been subscribed.
    pub fn new() -> (r: Self)
        ensures
            r.wf(),
            r.generation() == 0,
            r.active_rooms() == Set::<Seq<char>>::empty(),
            r.retained() == Map::<Seq<char>, RoomSubscriptionCheckpoint>::empty(),
    {
        RoomSubscriptions { state: RoomSubscriptionState::new(), checkpoints: KeyedList::new() }
    }

    /// Replaces the subscribed rooms, and forgets all checkpoints.
    pub fn replace(&mut self, room_ids: &[String]) -> (r: RoomSubscriptionGeneration)
        requires
            old(self).wf(),
        ensures
            final(self).wf(),
            final(self).generation() == next_generation(old(self).generation()),
            final(self).active_rooms() == text_set(room_ids@),
            final(self).retained() == Map::<Seq<char>, RoomSubscriptionCheckpoint>::empty(),
            r.0 == final(self).generation(),
    {
        let next = self.state.generation.wrapping_add(1);
        self.state.generation = if next < 1 {
            1
        } else {
            next
        };
        self.state.active_rooms = IdSet::from_ids(room_ids);
        self.checkpoints.clear();
        RoomSubscriptionGeneration(self.state.generation)
    }

    /// The current subscriptions, to capture an iteration from.
    pub fn snapshot(&self) -> (r: RoomSubscriptionState)
        requires
            self.wf(),
        ensures
            r.generation == self.generation(),
            r.active_rooms@ == self.active_rooms(),
            r.active_rooms.wf(),
    {
        self.state.clone()
    }

    /// Binds an iteration to the subscriptions that were captured for it, with the observations
    /// that were the latest ones then. `None` means that the subscriptions were replaced
    /// meanwhile, and are to be captured again.
    pub fn capture_room_subscription_iteration(
        &self,
        captured: RoomSubscriptionState,
        latest: &KeyedList<RoomTimelineSyncObservation>,
    ) -> (r: Option<RoomSubscriptionIteration>)
        requires
            self.wf(),
            captured.active_rooms.wf(),
            latest.wf(),
        ensures
            r is Some <==> captured.generation == self.generation() && captured.active_rooms@
                == self.active_rooms(),
            r matches Some(iteration) ==> {
                &&& iteration.wf()
                &&& self.is_current(iteration)
                &&& iteration.observation_baselines@.dom() == self.active_rooms()
                &&& forall|room: Seq<char>|
                    self.active_rooms().contains(room) ==> #[trigger] iteration.baseline(room)
                        == baseline_of(latest@, room)
            },
    {
        let rooms = captured.active_rooms.to_ids();
        let mut observation_baselines: KeyedList<u64> = KeyedList::new();
        let mut i: usize = 0;
        assert(text_set(rooms@.take(0)) =~= Set::empty());
        while i < rooms.len()
            invariant
                i <= rooms@.len(),
                latest.wf(),
                observation_baselines.wf(),
                observation_baselines@.dom() == text_set(rooms@.take(i as int)),
                forall|room: Seq<char>| #[trigger]
                    observation_baselines@.contains_key(room) ==> observation_baselines@[room]
                        == baseline_of(latest@, room),
            decreases rooms@.len() - i,
        {
            let sequence = match latest.get(rooms[i].as_str()) {
                Some(observation) => observation.sequence,
                None => 0,
            };
            observation_baselines.insert(rooms[i].clone(), sequence);
            proof {
                let before = texts(rooms@.take(i as int));
                let now = texts(rooms@.take(i + 1));
                assert(now =~= before.push(rooms@[i as int]@));
                before.lemma_push_to_set_commute(rooms@[i as int]@);
                assert(observation_baselines@.dom() =~= text_set(rooms@.take(i + 1)));
            }
            i += 1;
        }
        assert(rooms@.take(i as int) =~= rooms@);
        if self.state.generation == captured.generation && self.state.active_rooms.same_as(
            &captured.active_rooms,
        ) {
            let iteration = RoomSubscriptionIteration {
                generation: RoomSubscriptionGeneration(captured.generation),
                active_rooms: captured.active_rooms,
                observation_baselines,
            };
            proof {
                assert forall|room: Seq<char>|
                    self.active_rooms().contains(room) implies #[trigger] iteration.baseline(room)
                    == baseline_of(latest@, room) by {
                    assert(observation_baselines@.dom().contains(room));
                    assert(observation_baselines@.contains_key(room));
                }
            }
            return Some(iteration);
        }
        None
    }

    /// Takes in the checkpoints of a committed response, and tells whether they are to be
    /// published. A response without rooms, or one to an older set of subscriptions, changes
    /// nothing.
    pub fn publish_room_subscription_checkpoints(
        &mut self,
        iteration: &RoomSubscriptionIteration,
        additions: Vec<CheckpointAddition>,
        response_sequence: u64,
    ) -> (published: bool)
        requires
            old(self).wf(),
        ensures
            final(self).wf(),
            final(self).generation() == old(self).generation(),
            final(self).active_rooms() == old(self).active_rooms(),
            published == (additions@.len() > 0 && old(self).is_current(*iteration)),
            published ==> final(self).retained() == with_additions(
                old(self).retained(),
                iteration.generation,
                response_sequence,
                additions@,
            ),
            !published ==> final(self).retained() == old(self).retained(),
    {
        if additions.len() == 0 {
            return false;
        }
        if self.state.generation != iteration.generation.0 || !self.state.active_rooms.same_as(
            &iteration.active_rooms,
        ) {
            return false;
        }
        let ghost all = additions@;
        for addition in it: additions
            invariant
                it.seq() == all,
                self.wf(),
                self.generation() == old(self).generation(),
                self.active_rooms() == old(self).active_rooms(),
                self.retained() == with_additions(
                    old(self).retained(),
                    iteration.generation,
                    response_sequence,
                    all.take(it.index() as int),
                ),
        {
            proof {
                assert(all.take(it.index() + 1).drop_last() =~= all.take(it.index() as int));
                assert(all.take(it.index() + 1).last() == addition);
            }
            let (room_id, timeline) = addition;
            self.checkpoints.insert(
                room_id.clone(),
                RoomSubscriptionCheckpoint {
                    subscription_generation: iteration.generation,
                    response_sequence,
                    room_id,
                    timeline,
                },
            );
        }
        assert(all.take(all.len() as int) =~= all);
        true
    }

    /// The latest checkpoint of each room.
    pub fn checkpoints(&self) -> (r: &KeyedList<RoomSubscriptionCheckpoint>)
        requires
            self.wf(),
        ensures
            r.wf(),
            r@ == self.retained(),
    {
        &self.checkpoints
    }
}

/// The part of an observation that is newer than a baseline.
pub open spec fn newer_than(
    observation: Option<RoomTimelineSyncObservation>,
    baseline: u64,
) -> Option<RoomTimelineSyncObservation> {
    match observation {
        Some(seen) => if seen.sequence > baseline {
            Some(seen)
        } else {
            None
        },
        None => None,
    }
}

/// What a room of a response gives: what was new since its baseline, where it is subscribed.
pub open spec fn addition_for(
    iteration: RoomSubscriptionIteration,
    room: CheckpointAddition,
) -> Option<CheckpointAddition> {
    if iteration.active_rooms@.contains(room.0@) {
        Some((room.0, newer_than(room.1, iteration.baseline(room.0@))))
    } else {
        None
    }
}

/// What the rooms of a response give, in order.
pub open spec fn additions_for(
    iteration: RoomSubscriptionIteration,
    updated: Seq<CheckpointAddition>,
) -> Seq<CheckpointAddition> {
    updated.filter_map(|room: CheckpointAddition| addition_for(iteration, room))
}

/// Collects the checkpoints of a response from its rooms, each with the latest observation of its
/// timeline. Rooms that are not subscribed give none.
pub fn collect_room_subscription_checkpoints(
    iteration: &RoomSubscriptionIteration,
    updated: &[CheckpointAddition],
) -> (additions: Vec<CheckpointAddition>)
    requires
        iteration.wf(),
    ensures
        additions@ == additions_for(*iteration, updated@),
        forall|i: int|
            0 <= i < additions@.len() ==> iteration.active_rooms@.contains(
                #[trigger] additions@[i].0@,
            ),
{
    let mut additions: Vec<CheckpointAddition> = Vec::new();
    let ghost pick = |room: CheckpointAddition| addition_for(*iteration, room);
    let mut i: usize = 0;
    assert(additions@ =~= updated@.take(0).filter_map(pick));
    while i < updated.len()
        invariant
            i <= updated@.len(),
            iteration.wf(),
            pick == (|room: CheckpointAddition| addition_for(*iteration, room)),
            additions@ == updated@.take(i as int).filter_map(pick),
        decreases updated@.len() - i,
    {
        proof {
            updated@.lemma_filter_map_take_succ(pick, i as int);
        }
        if iteration.active_rooms.contains(updated[i].0.as_str()) {
            let baseline = match iteration.observation_baselines.get(updated[i].0.as_str()) {
                Some(sequence) => *sequence,
                None => 0,
            };
            let timeline = match updated[i].1 {
                Some(observation) => if observation.sequence > baseline {
                    Some(observation)
                } else {
                    None
                },
                None => None,
            };
            additions.push((updated[i].0.clone(), timeline));
        }
        assert(additions@ =~= updated@.take(i + 1).filter_map(pick));
        i += 1;
    }
    assert(updated@.take(i as int) =~= updated@);
    proof {
        assert forall|k: int| 0 <= k < additions@.len() implies iteration.active_rooms@.contains(
            #[trigger] additions@[k].0@,
        ) by {
            assert(addition_rooms(additions@)[k] == additions@[k].0@);
            additions_are_subscribed(*iteration, updated@, additions@[k].0@);
        }
    }
    additions
}

/// Every room that gives a checkpoint is subscribed.
pub proof fn additions_are_subscribed(
    iteration: RoomSubscriptionIteration,
    updated: Seq<CheckpointAddition>,
    room: Seq<char>,
)
    requires
        addition_rooms(additions_for(iteration, updated)).contains(room),
    ensures
        iteration.active_rooms@.contains(room),
{
    let additions = additions_for(iteration, updated);
    let i = choose|i: int| 0 <= i < addition_rooms(additions).len() && addition_rooms(additions)[i]
        == room;
    assert(additions.contains(additions[i]));
    updated.lemma_filter_map_contains(
        |entry: CheckpointAddition| addition_for(iteration, entry),
        additions[i],
    );
}

/// The number of a set of subscriptions is never zero, and differs from the one before.
pub proof fn generations_are_distinct_from_the_last(generation: u64)
    ensures
        next_generation(generation) >= 1,
        next_generation(generation) != generation,
{
}

/// Every checkpoint that a response leaves for one of its rooms carries the number of that response
/// and the generation of its subscription; all other checkpoints stay as they were.
pub proof fn checkpoints_carry_their_response(
    retained: Map<Seq<char>, RoomSubscriptionCheckpoint>,
    generation: RoomSubscriptionGeneration,
    response_sequence: u64,
    additions: Seq<CheckpointAddition>,
    room: Seq<char>,
)
    ensures
        ({
            let now = with_additions(retained, generation, response_sequence, additions);
            if addition_rooms(additions).contains(room) {
                &&& now.contains_key(room)
                &&& now[room].response_sequence == response_sequence
                &&& now[room].subscription_generation == generation
                &&& now[room].room_id@ == room
            } else {
                &&& now.contains_key(room) == retained.contains_key(room)
                &&& now.contains_key(room) ==> now[room] == retained[room]
            }
        }),
    decreases additions.len(),
{
    if additions.len() > 0 {
        let rest = additions.drop_last();
        checkpoints_carry_their_response(retained, generation, response_sequence, rest, room);
        assert(addition_rooms(additions) =~= addition_rooms(rest).push(additions.last().0@));
        if addition_rooms(rest).contains(room) {
            let i = choose|i: int|
                0 <= i < addition_rooms(rest).len() && addition_rooms(rest)[i] == room;
            assert(addition_rooms(additions)[i] == room);
        } else if additions.last().0@ == room {
            assert(addition_rooms(additions)[rest.len() as int] == room);
        } else {
            assert forall|i: int| 0 <= i < addition_rooms(additions).len() implies addition_rooms(
                additions,
            )[i] != room by {
                if i < rest.len() {
                    assert(addition_rooms(rest)[i] == addition_rooms(additions)[i]);
                }
            }
        }
    }
}

/// The rooms of a list of additions.
pub open spec fn addition_rooms(additions: Seq<CheckpointAddition>) -> Seq<Seq<char>> {
    additions.map_values(|addition: CheckpointAddition| addition.0@)
}

/// Each subscribed room of a response gives one checkpoint, in order, and no other room gives any. The
/// checkpoint carries the observation of the room exactly where its number is higher than the one
/// that the iteration started from: a room that the iteration started without any starts from zero.
pub proof fn subscribed_room_carries_what_is_newer_than_its_baseline(
    iteration: RoomSubscriptionIteration,
    updated: Seq<CheckpointAddition>,
    room: CheckpointAddition,
)
    ensures
        additions_for(iteration, Seq::empty()).len() == 0,
        !iteration.active_rooms@.contains(room.0@) ==> additions_for(iteration, updated.push(room))
            == additions_for(iteration, updated),
        iteration.active_rooms@.contains(room.0@) ==> {
            let before = additions_for(iteration, updated);
            let now = additions_for(iteration, updated.push(room));
            let known = iteration.observation_baselines@.contains_key(room.0@);
            let start = iteration.observation_baselines@[room.0@];
            &&& now.len() == before.len() + 1
            &&& now.drop_last() == before
            &&& now.last().0 == room.0
            &&& room.1 is None ==> now.last().1 is None
            &&& room.1 matches Some(seen) ==> {
                &&& known ==> (now.last().1 is Some <==> seen.sequence > start)
                &&& !known ==> (now.last().1 is Some <==> seen.sequence > 0)
                &&& now.last().1 is Some ==> now.last().1 == room.1
            }
        },
{
    let pick = |entry: CheckpointAddition| addition_for(iteration, entry);
    let more = updated.push(room);
    more.lemma_filter_map_take_succ(pick, updated.len() as int);
    assert(more.take(updated.len() as int) =~= updated);
    assert(more.take(more.len() as int) =~= more);
    if iteration.active_rooms@.contains(room.0@) {
        assert(additions_for(iteration, more).drop_last() =~= additions_for(iteration, updated));
    }
}

/// The observation that directly follows the baseline is carried, and the baseline itself is not.
pub proof fn observation_is_carried_from_the_one_after_the_baseline(
    iteration: RoomSubscriptionIteration,
    room: String,
    seen: RoomTimelineSyncObservation,
)
    requires
        iteration.active_rooms@.contains(room@),
        iteration.observation_baselines@.contains_key(room@),
    ensures
        ({
            let start = iteration.observation_baselines@[room@];
            let found = additions_for(iteration, seq![(room, Some(seen))]);
            &&& found.len() == 1
            &&& seen.sequence == start ==> found[0] == (
                room,
                None::<RoomTimelineSyncObservation>,
            )
            &&& seen.sequence == start + 1 ==> found[0] == (room, Some(seen))
        }),
{
    let none: Seq<CheckpointAddition> = Seq::empty();
    subscribed_room_carries_what_is_newer_than_its_baseline(iteration, none, (room, Some(seen)));
    assert(none.push((room, Some(seen))) =~= seq![(room, Some(seen))]);
}

/// The baseline of a room is the number of its last observation, and zero without one.
pub proof fn baseline_is_the_last_observation(
    iteration: RoomSubscriptionIteration,
    latest: Map<Seq<char>, RoomTimelineSyncObservation>,
    room: Seq<char>,
)
    ensures
        latest.contains_key(room) ==> baseline_of(latest, room) == latest[room].sequence,
        !latest.contains_key(room) ==> baseline_of(latest, room) == 0,
        iteration.observation_baselines@.contains_key(room) ==> iteration.baseline(room)
            == iteration.observation_baselines@[room],
        !iteration.observation_baselines@.contains_key(room) ==> iteration.baseline(room) == 0,
{
}

/// Sets of subscriptions are numbered in turn. The number starts over with one, and so never is zero.
pub proof fn generations_follow_each_other(generation: u64)
    ensures
        generation < u64::MAX ==> next_generation(generation) == generation + 1,
        generation == u64::MAX ==> next_generation(generation) == 1,
{
}

/// A room of a response leaves the checkpoint that it gives, in place of the one it had; the
/// checkpoints of all other rooms stay.
pub proof fn last_addition_of_a_room_is_retained(
    retained: Map<Seq<char>, RoomSubscriptionCheckpoint>,
    generation: RoomSubscriptionGeneration,
    response_sequence: u64,
    additions: Seq<CheckpointAddition>,
    addition: CheckpointAddition,
    room: Seq<char>,
)
    ensures
        with_additions(retained, generation, response_sequence, Seq::empty()) == retained,
        ({
            let before = with_additions(retained, generation, response_sequence, additions);
            let now = with_additions(
                retained,
                generation,
                response_sequence,
                additions.push(addition),
            );
            &&& room == addition.0@ ==> {
                &&& now.contains_key(room)
                &&& now[room].subscription_generation == generation
                &&& now[room].response_sequence == response_sequence
                &&& now[room].room_id == addition.0
                &&& now[room].timeline == addition.1
            }
            &&& room != addition.0@ ==> {
                &&& now.contains_key(room) == before.contains_key(room)
                &&& before.contains_key(room) ==> now[room] == before[room]
            }
        }),
{
    assert(additions.push(addition).drop_last() =~= additions);
}

/// An iteration is bound to its set of subscriptions: it is current exactly where the number and the
/// rooms of the set are still the same.
pub proof fn iteration_is_current_for_its_own_set(
    subscriptions: RoomSubscriptions,
    iteration: RoomSubscriptionIteration,
)
    ensures
        subscriptions.is_current(iteration) ==> subscriptions.generation()
            == iteration.generation.0,
        subscriptions.is_current(iteration) ==> forall|room: Seq<char>|
            subscriptions.active_rooms().contains(room)
                <==> #[trigger] iteration.active_rooms@.contains(room),
        subscriptions.generation() == iteration.generation.0 && subscriptions.active_rooms()
            == iteration.active_rooms@ ==> subscriptions.is_current(iteration),
{
}

/// The description of a checkpoint starts and ends alike for all checkpoints, and says whether there is
/// a timeline.
pub proof fn description_names_generation_response_and_timeline(
    checkpoint: RoomSubscriptionCheckpoint,
)
    ensures
        ({
            let head =
                "RoomSubscriptionCheckpoint { subscription_generation: RoomSubscriptionGeneration("@
                + decimal(checkpoint.subscription_generation.0 as nat) + "), response_sequence: "@
                + decimal(checkpoint.response_sequence as nat);
            &&& checkpoint.timeline is Some ==> checkpoint.description() == head
                + ", has_timeline: true }"@
            &&& checkpoint.timeline is None ==> checkpoint.description() == head
                + ", has_timeline: false }"@
        }),
{
    reveal_strlit(", has_timeline: ");
    reveal_strlit("true");
    reveal_strlit("false");
    reveal_strlit(" }");
    reveal_strlit(", has_timeline: true }");
    reveal_strlit(", has_timeline: false }");
    let head = "RoomSubscriptionCheckpoint { subscription_generation: RoomSubscriptionGeneration("@
        + decimal(checkpoint.subscription_generation.0 as nat) + "), response_sequence: "@
        + decimal(checkpoint.response_sequence as nat);
    if checkpoint.timeline is Some {
        assert(", has_timeline: "@ + "true"@ + " }"@ =~= ", has_timeline: true }"@);
        assert(checkpoint.description() =~= head + (", has_timeline: "@ + "true"@ + " }"@));
    } else {
        assert(", has_timeline: "@ + "false"@ + " }"@ =~= ", has_timeline: false }"@);
        assert(checkpoint.description() =~= head + (", has_timeline: "@ + "false"@ + " }"@));
    }
}

/// Sets of subscriptions with the same number and as many rooms are described alike: no room shows in a
/// description. The description gives the number and the count.
pub proof fn description_tells_how_many_rooms_there_are(
    one: RoomSubscriptionState,
    other: RoomSubscriptionState,
)
    requires
        one.generation == other.generation,
        one.active_rooms@.len() == other.active_rooms@.len(),
    ensures
        one.description() == other.description(),
        ({
            let number = decimal(one.generation as nat);
            let count = decimal(one.active_rooms@.len());
            &&& one.description().len() == number.len() + count.len() + 59
            &&& one.description().subrange(36, 36 + number.len() as int) == number
            &&& one.description().subrange(
                57 + number.len() as int,
                57 + number.len() as int + count.len() as int,
            ) == count
        }),
{
    reveal_strlit("RoomSubscriptionState { generation: ");
    reveal_strlit(", active_room_count: ");
    reveal_strlit(" }");
    let number = decimal(one.generation as nat);
    let count = decimal(one.active_rooms@.len());
    assert(one.description().subrange(36, 36 + number.len() as int) =~= number);
    assert(one.description().subrange(
        57 + number.len() as int,
        57 + number.len() as int + count.len() as int,
    ) =~= count);
}

} // verus!
