//! The list of a room's threads: its pages, and the summary of each thread.

use vstd::hash_map::StringHashMap;
use vstd::prelude::*;

use crate::json::{event_type_of, read_event_type};
use crate::keyed::{text_set, IdSet};
use crate::room_cache::{Event, EventCacheError, Unsigned};
use crate::text::{
    opt_text, same_text, text_less, text_order_is_irreflexive, text_order_is_total,
    text_order_is_transitive, text_precedes, texts,
};
use crate::vector_diff::VectorDiff;

verus! {

/// What is known of a sender.
#[derive(Debug, PartialEq, Eq)]
pub enum SenderProfile {
    /// Nothing.
    Unavailable,
    /// The sender's profile.
    Ready {
        /// The name.
        display_name: Option<String>,
        /// The address of the avatar.
        avatar_url: Option<String>,
    },
}

impl Clone for SenderProfile {
    fn clone(&self) -> (r: Self)
        ensures
            r == *self,
    {
        match self {
            SenderProfile::Unavailable => SenderProfile::Unavailable,
            SenderProfile::Ready { display_name, avatar_url } => SenderProfile::Ready {
                display_name: display_name.clone(),
                avatar_url: avatar_url.clone(),
            },
        }
    }
}

/// The content of an event as a timeline shows it.
#[derive(Debug, PartialEq, Eq)]
pub struct TimelineItemContent {
    /// The content as JSON text.
    pub json: String,
    /// Whether the content could not be decrypted.
    pub unable_to_decrypt: bool,
}

impl Clone for TimelineItemContent {
    fn clone(&self) -> (r: Self)
        ensures
            r == *self,
    {
        TimelineItemContent {
            json: self.json.clone(),
            unable_to_decrypt: self.unable_to_decrypt,
        }
    }
}

/// An event in a thread: the root or the latest reply.
#[derive(Debug, PartialEq, Eq)]
pub struct ThreadListItemEvent {
    /// The event ID.
    pub event_id: String,
    /// When the event was sent, in milliseconds since the Unix epoch.
    pub timestamp: u64,
    /// The sender of the event.
    pub sender: String,
    /// Whether the event was sent by the current user.
    pub is_own: bool,
    /// The sender's profile.
    pub sender_profile: SenderProfile,
    /// The content of the event, where it could be read.
    pub content: Option<TimelineItemContent>,
}

impl Clone for ThreadListItemEvent {
    fn clone(&self) -> (r: Self)
        ensures
            r == *self,
    {
        ThreadListItemEvent {
            event_id: self.event_id.clone(),
            timestamp: self.timestamp,
            sender: self.sender.clone(),
            is_own: self.is_own,
            sender_profile: self.sender_profile.clone(),
            content: self.content.clone(),
        }
    }
}

/// One thread of a room.
#[derive(Debug, PartialEq, Eq)]
pub struct ThreadListItem {
    /// The thread root event.
    pub root_event: ThreadListItemEvent,
    /// The latest event in the thread, where one is known.
    pub latest_event: Option<ThreadListItemEvent>,
    /// The number of replies in this thread, without the root.
    pub num_replies: u32,
}

impl Clone for ThreadListItem {
    fn clone(&self) -> (r: Self)
        ensures
            r == *self,
    {
        ThreadListItem {
            root_event: self.root_event.clone(),
            latest_event: self.latest_event.clone(),
            num_replies: self.num_replies,
        }
    }
}

/// The pagination state of a thread list.
#[derive(Clone, Copy, Debug, PartialEq, Eq, Structural)]
pub enum ThreadListPaginationState {
    /// The list is idle.
    Idle {
        /// Whether the end of the thread list has been reached.
        end_reached: bool,
    },
    /// The list is loading the next page.
    Loading,
}

/// An error of a thread list.
#[derive(Debug)]
pub enum ThreadListServiceError {
    /// An error of the client.
    Sdk(String),
    /// An error of the room event cache.
    EventCache(EventCacheError),
}

/// The summary of a thread as the relations in the cache give it.
///
/// The latest event is the original reply, with the content of its latest valid edit.
#[derive(Debug, PartialEq, Eq)]
pub struct ThreadRelationAggregate {
    /// The latest valid original reply, if one is available.
    pub latest_event: Option<ThreadListItemEvent>,
    /// The number of valid original replies.
    pub num_replies: u32,
}

/// The summary of a thread as the server gave it.
#[derive(Debug, PartialEq, Eq)]
pub struct BundledThreadProof {
    /// The latest event.
    pub latest_event: Option<ThreadListItemEvent>,
    /// The number of replies.
    pub num_replies: u32,
}

/// What is known of a thread's summary.
#[derive(Debug, PartialEq, Eq)]
pub struct ThreadRelationProof {
    /// The summary of the server, where it gave one.
    pub bundled: Option<BundledThreadProof>,
    /// Whether the relations in the cache are known to be at least as complete.
    pub complete: bool,
}

/// How an event relates to another one.
#[derive(Clone, Copy, Debug, PartialEq, Eq, Structural)]
pub enum RelationType {
    /// It belongs to the thread of the other one.
    Thread,
    /// It replaces the content of the other one.
    Replacement,
    /// Something else.
    Other,
}

/// Whether a relation is of a type and has a target.
pub open spec fn relates_to(
    relation: Option<(RelationType, String)>,
    kind: RelationType,
    target: Seq<char>,
) -> bool {
    relation matches Some(pair) && pair.0 == kind && pair.1@ == target
}

fn has_relation(relation: &Option<(RelationType, String)>, kind: RelationType, target: &str) -> (r:
    bool)
    ensures
        r == relates_to(*relation, kind, target@),
{
    match relation {
        Some((found, id)) => *found == kind && same_text(id.as_str(), target),
        None => false,
    }
}

/// Whether an event was redacted: its unsigned part, where it can be read, names the redaction.
pub open spec fn is_redacted(unsigned: Option<Unsigned>) -> bool {
    unsigned matches Some(part) && part.redacted_because is Some
}

/// Tells whether an event was redacted, from its unsigned part.
pub fn is_redacted_raw_event(unsigned: &Option<Unsigned>) -> (r: bool)
    ensures
        r == is_redacted(*unsigned),
{
    match unsigned {
        Some(part) => part.redacted_because.is_some(),
        None => false,
    }
}

/// Whether an event type is that of a redaction.
pub open spec fn is_redaction_type(event_type: Option<Seq<char>>) -> bool {
    event_type == Some("m.room.redaction"@)
}

/// Tells whether an event type, where an event has one, is that of a redaction.
pub fn is_redaction_event_type(event_type: &Option<String>) -> (r: bool)
    ensures
        r == is_redaction_type(opt_text(*event_type)),
{
    match event_type {
        Some(text) => same_text(text.as_str(), "m.room.redaction"),
        None => false,
    }
}

/// Whether an event redacts another one.
pub open spec fn is_redaction(json: Seq<char>) -> bool {
    is_redaction_type(event_type_of(json))
}

/// Tells whether an event redacts another one.
pub fn is_redaction_event(json: &str) -> (r: bool)
    ensures
        r == is_redaction(json@),
{
    let event_type = read_event_type(json);
    is_redaction_event_type(&event_type)
}

/// Whether an event can change threads in ways that its relations do not tell.
pub open spec fn needs_full_reconciliation(event: Event) -> bool {
    is_redaction(event.json@) || is_redacted(event.unsigned)
}

/// Tells whether an event can change threads in ways that its relations do not tell.
pub fn requires_full_reconciliation(event: &Event) -> (r: bool)
    ensures
        r == needs_full_reconciliation(*event),
{
    is_redaction_event(event.json.as_str()) || is_redacted_raw_event(&event.unsigned)
}

/// Whether one of the events can change threads in ways that its relations do not tell.
pub open spec fn hides_what_changed(events: Seq<Event>) -> bool {
    exists|i: int| 0 <= i < events.len() && needs_full_reconciliation(#[trigger] events[i])
}

fn any_requires_full_reconciliation(events: &[Event]) -> (r: bool)
    ensures
        r == hides_what_changed(events@),
{
    let mut i: usize = 0;
    while i < events.len()
        invariant
            i <= events@.len(),
            forall|j: int| 0 <= j < i ==> !needs_full_reconciliation(#[trigger] events@[j]),
        decreases events@.len() - i,
    {
        if requires_full_reconciliation(&events[i]) {
            assert(needs_full_reconciliation(events@[i as int]));
            return true;
        }
        i += 1;
    }
    false
}

/// The values that a list of changes brings, in order.
pub open spec fn brought_by_all(diffs: Seq<VectorDiff<Event>>) -> Seq<Event>
    decreases diffs.len(),
{
    if diffs.len() == 0 {
        Seq::empty()
    } else {
        brought_by_all(diffs.drop_last()) + diffs.last().brought()
    }
}

/// Extracts all events from a list of changes.
pub fn collect_events_from_diffs(diffs: Vec<VectorDiff<Event>>) -> (events: Vec<Event>)
    ensures
        events@ == brought_by_all(diffs@),
{
    let mut events: Vec<Event> = Vec::new();
    let ghost all = diffs@;
    for diff in it: diffs
        invariant
            it.seq() == all,
            events@ == brought_by_all(all.take(it.index() as int)),
    {
        proof {
            assert(all.take(it.index() + 1).drop_last() =~= all.take(it.index() as int));
            assert(all.take(it.index() + 1).last() == diff);
        }
        diff.push_brought(&mut events);
    }
    assert(all.take(all.len() as int) =~= all);
    events
}

/// Makes the event of a thread from what is known of it; `None` where it lacks an identifier, a time
/// or a sender.
pub fn build_event(
    event_id: Option<String>,
    timestamp: Option<u64>,
    sender: Option<String>,
    own_user_id: &str,
    sender_profile: SenderProfile,
    content: Option<TimelineItemContent>,
) -> (r: Option<ThreadListItemEvent>)
    ensures
        r is Some <==> event_id is Some && timestamp is Some && sender is Some,
        r matches Some(event) ==> event == (ThreadListItemEvent {
            event_id: event_id->0,
            timestamp: timestamp->0,
            sender: sender->0,
            is_own: own_user_id@ == sender->0@,
            sender_profile,
            content,
        }),
{
    let event_id = match event_id {
        Some(event_id) => event_id,
        None => {
            return None;
        },
    };
    let timestamp = match timestamp {
        Some(timestamp) => timestamp,
        None => {
            return None;
        },
    };
    let sender = match sender {
        Some(sender) => sender,
        None => {
            return None;
        },
    };
    let is_own = same_text(own_user_id, sender.as_str());
    Some(ThreadListItemEvent { event_id, timestamp, sender, is_own, sender_profile, content })
}

/// Makes the item of a thread from its root, and from what the server said of the thread; `None`
/// where the root could not be made.
pub fn build_thread_list_item(
    root_event: Option<ThreadListItemEvent>,
    num_replies: Option<u32>,
    latest_event: Option<ThreadListItemEvent>,
) -> (r: Option<ThreadListItem>)
    ensures
        r == match root_event {
            Some(root_event) => Some(
                ThreadListItem {
                    root_event,
                    latest_event,
                    num_replies: match num_replies {
                        Some(n) => n,
                        None => 0,
                    },
                },
            ),
            None => None,
        },
{
    match root_event {
        Some(root_event) => Some(
            ThreadListItem { root_event, latest_event, num_replies: num_replies.unwrap_or(0) },
        ),
        None => None,
    }
}

/// One page of the thread list.
#[derive(Debug)]
pub struct ThreadList {
    /// The threads of this page.
    pub items: Vec<ThreadListItem>,
    /// The token of the next page.
    pub prev_batch_token: Option<String>,
}

/// Makes a page from its threads: those whose root could not be made are left out.
pub fn load_thread_list(
    items: Vec<Option<ThreadListItem>>,
    prev_batch_token: Option<String>,
) -> (r: ThreadList)
    ensures
        r.items@ == items@.filter_map(|item: Option<ThreadListItem>| item),
        r.prev_batch_token == prev_batch_token,
{
    let mut kept: Vec<ThreadListItem> = Vec::new();
    let ghost all = items@;
    let ghost same = |item: Option<ThreadListItem>| item;
    assert(kept@ =~= all.take(0).filter_map(same));
    for item in it: items
        invariant
            it.seq() == all,
            same == (|item: Option<ThreadListItem>| item),
            kept@ == all.take(it.index() as int).filter_map(same),
    {
        proof {
            all.lemma_filter_map_take_succ(same, it.index() as int);
            assert(all[it.index() as int] == item);
        }
        if let Some(found) = item {
            kept.push(found);
        }
        assert(kept@ =~= all.take(it.index() + 1).filter_map(same));
    }
    assert(all.take(all.len() as int) =~= all);
    ThreadList { items: kept, prev_batch_token }
}

/// Whether the key `(b_time, b)` comes after the key `(a_time, a)`: keys are ordered by time, and by
/// identifier at the same time.
pub open spec fn key_after(a_time: u64, a: Seq<char>, b_time: u64, b: Seq<char>) -> bool {
    a_time < b_time || (a_time == b_time && text_precedes(a, b))
}

fn is_key_after(a_time: u64, a: &str, b_time: u64, b: &str) -> (r: bool)
    ensures
        r == key_after(a_time, a@, b_time, b@),
{
    a_time < b_time || (a_time == b_time && text_less(a, b))
}

proof fn key_after_facts(a_time: u64, a: Seq<char>, b_time: u64, b: Seq<char>)
    ensures
        !key_after(a_time, a, a_time, a),
        (a_time, a) != (b_time, b) ==> key_after(a_time, a, b_time, b) || key_after(
            b_time,
            b,
            a_time,
            a,
        ),
        key_after(a_time, a, b_time, b) ==> !key_after(b_time, b, a_time, a),
{
    text_order_is_irreflexive(a);
    if a != b {
        text_order_is_total(a, b);
    }
    if text_precedes(a, b) && text_precedes(b, a) {
        text_order_is_transitive(a, b, a);
    }
}

proof fn key_after_is_transitive(
    a_time: u64,
    a: Seq<char>,
    b_time: u64,
    b: Seq<char>,
    c_time: u64,
    c: Seq<char>,
)
    requires
        key_after(a_time, a, b_time, b),
        key_after(b_time, b, c_time, c),
    ensures
        key_after(a_time, a, c_time, c),
{
    if a_time == b_time && b_time == c_time {
        text_order_is_transitive(a, b, c);
    }
}

/// An event that the cache relates to a thread root.
#[derive(Debug)]
pub struct RelatedEvent {
    /// The event.
    pub event: Event,
    /// How it relates to another one.
    pub relation: Option<(RelationType, String)>,
    /// When it was sent, as far as its sender can be believed.
    pub timestamp: u64,
    /// The event as a thread shows it, where that could be made.
    pub built: Option<ThreadListItemEvent>,
    /// The content of its latest valid edit, where it has one that can be read.
    pub replacement: Option<TimelineItemContent>,
}

/// Whether an event is a reply in the thread of a root.
pub open spec fn is_reply(event: RelatedEvent, root: Seq<char>) -> bool {
    &&& event.event.id() is Some
    &&& !is_redacted(event.event.unsigned)
    &&& relates_to(event.relation, RelationType::Thread, root)
}

/// Whether the event at a position is a reply, and the first one with its identifier.
pub open spec fn is_original(related: Seq<RelatedEvent>, root: Seq<char>, i: int) -> bool {
    &&& 0 <= i < related.len()
    &&& is_reply(related[i], root)
    &&& forall|j: int|
        0 <= j < i && is_reply(#[trigger] related[j], root) ==> related[j].event.id()
            != related[i].event.id()
}

/// The positions of the original replies, in order.
pub open spec fn original_positions(related: Seq<RelatedEvent>, root: Seq<char>) -> Seq<int>
    decreases related.len(),
{
    if related.len() == 0 {
        Seq::empty()
    } else {
        let rest = original_positions(related.drop_last(), root);
        if is_original(related, root, related.len() - 1) {
            rest.push(related.len() - 1)
        } else {
            rest
        }
    }
}

proof fn original_positions_facts(related: Seq<RelatedEvent>, root: Seq<char>)
    ensures
        forall|k: int|
            0 <= k < original_positions(related, root).len() ==> is_original(
                related,
                root,
                #[trigger] original_positions(related, root)[k],
            ),
        forall|i: int| #[trigger]
            is_original(related, root, i) ==> original_positions(related, root).contains(i),
        forall|a: int, b: int|
            0 <= a < b < original_positions(related, root).len()
                ==> #[trigger] original_positions(related, root)[a]
                < #[trigger] original_positions(related, root)[b],
        original_positions(related, root).len() <= related.len(),
    decreases related.len(),
{
    if related.len() > 0 {
        let rest = related.drop_last();
        original_positions_facts(rest, root);
        let before = original_positions(rest, root);
        let now = original_positions(related, root);
        assert forall|i: int| 0 <= i < rest.len() implies is_original(related, root, i)
            == #[trigger] is_original(rest, root, i) by {
            assert(rest[i] == related[i]);
            if is_original(rest, root, i) {
                assert forall|j: int|
                    0 <= j < i && is_reply(#[trigger] related[j], root) implies related[j].event.id()
                    != related[i].event.id() by {
                    assert(rest[j] == related[j]);
                }
            }
            if is_original(related, root, i) {
                assert forall|j: int|
                    0 <= j < i && is_reply(#[trigger] rest[j], root) implies rest[j].event.id()
                    != rest[i].event.id() by {
                    assert(rest[j] == related[j]);
                }
            }
        }
        assert forall|k: int| 0 <= k < now.len() implies is_original(
            related,
            root,
            #[trigger] now[k],
        ) by {
            if k < before.len() {
                assert(now[k] == before[k]);
                assert(is_original(rest, root, before[k]));
            }
        }
        assert forall|i: int| #[trigger] is_original(related, root, i) implies now.contains(i) by {
            if i < rest.len() {
                assert(is_original(rest, root, i));
                let k = choose|k: int| 0 <= k < before.len() && before[k] == i;
                assert(now[k] == i);
            } else {
                assert(now[before.len() as int] == i);
            }
        }
        assert forall|a: int, b: int| 0 <= a < b < now.len() implies #[trigger] now[a]
            < #[trigger] now[b] by {
            if b < before.len() {
                assert(now[a] == before[a] && now[b] == before[b]);
            } else {
                assert(now[a] == before[a]);
                assert(is_original(rest, root, before[a]));
            }
        }
    }
}

/// Finds the original replies in a thread. Of several events with one identifier the first counts.
pub fn collect_originals(related: &[RelatedEvent], root_event_id: &str) -> (r: Vec<usize>)
    ensures
        r@.map_values(|i: usize| i as int) == original_positions(related@, root_event_id@),
{
    let mut originals: Vec<usize> = Vec::new();
    let mut seen = IdSet::new();
    let ghost root = root_event_id@;
    let mut i: usize = 0;
    assert(originals@.map_values(|i: usize| i as int) =~= original_positions(related@.take(0), root));
    while i < related.len()
        invariant
            i <= related@.len(),
            root == root_event_id@,
            seen.wf(),
            originals@.map_values(|i: usize| i as int) == original_positions(
                related@.take(i as int),
                root,
            ),
            forall|id: Seq<char>| #[trigger]
                seen@.contains(id) <==> exists|j: int|
                    0 <= j < i && is_reply(#[trigger] related@[j], root) && related@[j].event.id()
                        == Some(id),
        decreases related@.len() - i,
    {
        let ghost known = seen@;
        let ghost earlier = originals@;
        proof {
            let upto = related@.take(i + 1);
            assert(upto.drop_last() =~= related@.take(i as int));
            assert forall|j: int| 0 <= j <= i implies #[trigger] upto[j] == related@[j] by {}
        }
        let is_candidate = !is_redacted_raw_event(&related[i].event.unsigned) && has_relation(
            &related[i].relation,
            RelationType::Thread,
            root_event_id,
        );
        if let Some(event_id) = &related[i].event.event_id {
            if is_candidate {
                let is_new = seen.insert(event_id.as_str());
                if is_new {
                    originals.push(i);
                }
                proof {
                    let upto = related@.take(i + 1);
                    assert(is_reply(related@[i as int], root));
                    assert(related@[i as int].event.id() == Some(event_id@));
                    assert(is_new == is_original(upto, root, i as int)) by {
                        if is_new {
                            assert forall|j: int|
                                0 <= j < i && is_reply(
                                    #[trigger] upto[j],
                                    root,
                                ) implies upto[j].event.id() != upto[i as int].event.id() by {
                                assert(upto[j] == related@[j]);
                                assert(is_reply(related@[j], root));
                                if upto[j].event.id() == upto[i as int].event.id() {
                                    assert(known.contains(event_id@));
                                }
                            }
                        } else {
                            let j = choose|j: int|
                                0 <= j < i && is_reply(#[trigger] related@[j], root)
                                    && related@[j].event.id() == Some(event_id@);
                            assert(upto[j] == related@[j]);
                            assert(is_reply(upto[j], root));
                        }
                    }
                    assert forall|id: Seq<char>| #[trigger] seen@.contains(id) <==> exists|j: int|
                        0 <= j < i + 1 && is_reply(#[trigger] related@[j], root)
                            && related@[j].event.id() == Some(id) by {
                        if known.contains(id) {
                            let j = choose|j: int|
                                0 <= j < i && is_reply(#[trigger] related@[j], root)
                                    && related@[j].event.id() == Some(id);
                            assert(is_reply(related@[j], root));
                        }
                    }
                }
            }
        }
        proof {
            let upto = related@.take(i + 1);
            if !is_reply(related@[i as int], root) {
                assert(!is_original(upto, root, i as int));
                assert forall|id: Seq<char>| #[trigger] seen@.contains(id) <==> exists|j: int|
                    0 <= j < i + 1 && is_reply(#[trigger] related@[j], root)
                        && related@[j].event.id() == Some(id) by {
                    if known.contains(id) {
                        let j = choose|j: int|
                            0 <= j < i && is_reply(#[trigger] related@[j], root)
                                && related@[j].event.id() == Some(id);
                        assert(is_reply(related@[j], root));
                    }
                }
            }
            if is_original(upto, root, i as int) {
                assert(originals@.map_values(|i: usize| i as int) =~= earlier.map_values(
                    |i: usize| i as int,
                ).push(i as int));
            }
            assert(originals@.map_values(|i: usize| i as int) =~= original_positions(upto, root));
        }
        i += 1;
    }
    assert(related@.take(i as int) =~= related@);
    originals
}

/// A reply as a thread shows it: with the content of its edit, where that can be read.
pub open spec fn projected(event: RelatedEvent) -> Option<ThreadListItemEvent> {
    match event.built {
        Some(built) => match event.replacement {
            Some(content) => if content.unable_to_decrypt {
                Some(built)
            } else {
                Some(ThreadListItemEvent { content: Some(content), ..built })
            },
            None => Some(built),
        },
        None => None,
    }
}

/// A reply as a thread shows it.
fn project(event: &RelatedEvent) -> (r: Option<ThreadListItemEvent>)
    ensures
        r == projected(*event),
{
    let mut built = match &event.built {
        Some(built) => built.clone(),
        None => {
            return None;
        },
    };
    if let Some(content) = &event.replacement {
        if !content.unable_to_decrypt {
            built.content = Some(content.clone());
        }
    }
    Some(built)
}

/// Whether the reply at one position comes after the reply at another one.
pub open spec fn reply_after(related: Seq<RelatedEvent>, i: int, j: int) -> bool {
    key_after(
        related[i].timestamp,
        related[i].built->0.event_id@,
        related[j].timestamp,
        related[j].built->0.event_id@,
    )
}

/// Whether the reply at a position is the latest of those at some positions that can be shown.
pub open spec fn is_latest_reply(
    related: Seq<RelatedEvent>,
    positions: Seq<int>,
    at: int,
) -> bool {
    &&& positions.contains(at)
    &&& related[at].built is Some
    &&& forall|k: int|
        0 <= k < positions.len() && related[#[trigger] positions[k]].built is Some ==> !reply_after(
            related,
            at,
            positions[k],
        )
}

/// Whether an event is the latest of the replies at some positions, `None` where none of them can be
/// shown.
pub open spec fn shows_latest(
    related: Seq<RelatedEvent>,
    positions: Seq<int>,
    latest: Option<ThreadListItemEvent>,
) -> bool {
    match latest {
        Some(event) => exists|at: int| #[trigger]
            is_latest_reply(related, positions, at) && projected(related[at]) == Some(event),
        None => forall|k: int|
            0 <= k < positions.len() ==> related[#[trigger] positions[k]].built is None,
    }
}

/// Whether a summary is that of the relations in the cache.
pub open spec fn is_aggregate_of(
    aggregate: ThreadRelationAggregate,
    related: Seq<RelatedEvent>,
    root: Seq<char>,
) -> bool {
    let positions = original_positions(related, root);
    &&& aggregate.num_replies == (if positions.len() <= u32::MAX {
        positions.len()
    } else {
        u32::MAX as nat
    })
    &&& shows_latest(related, positions, aggregate.latest_event)
}

/// Resolves the summary of a thread from the events that the cache relates to its root. The summary
/// of the server is deliberately not consulted.
pub fn resolve_thread_relation_aggregate(related: &[RelatedEvent], root_event_id: &str) -> (r:
    ThreadRelationAggregate)
    ensures
        is_aggregate_of(r, related@, root_event_id@),
{
    let originals = collect_originals(related, root_event_id);
    let ghost positions = original_positions(related@, root_event_id@);
    proof {
        original_positions_facts(related@, root_event_id@);
        assert(originals@.len() == positions.len());
        assert forall|k: int| 0 <= k < originals@.len() implies #[trigger] originals@[k]
            == positions[k] && originals@[k] < related@.len() by {
            assert(originals@.map_values(|i: usize| i as int)[k] == originals@[k] as int);
            assert(is_original(related@, root_event_id@, positions[k]));
        }
    }
    let num_replies: u32 = if originals.len() <= u32::MAX as usize {
        originals.len() as u32
    } else {
        u32::MAX
    };
    let mut latest: Option<usize> = None;
    let mut k: usize = 0;
    while k < originals.len()
        invariant
            k <= originals@.len(),
            originals@.len() == positions.len(),
            forall|m: int|
                0 <= m < originals@.len() ==> #[trigger] originals@[m] == positions[m]
                    && originals@[m] < related@.len(),
            match latest {
                Some(at) => {
                    &&& at < related@.len()
                    &&& is_latest_reply(related@, positions.take(k as int), at as int)
                },
                None => forall|m: int|
                    0 <= m < k ==> related@[#[trigger] positions[m]].built is None,
            },
        decreases originals@.len() - k,
    {
        let i = originals[k];
        assert(positions[k as int] == i);
        let ghost before = latest;
        if let Some(event) = &related[i].built {
            let is_later = match latest {
                Some(at) => match &related[at].built {
                    Some(current) => is_key_after(
                        related[at].timestamp,
                        current.event_id.as_str(),
                        related[i].timestamp,
                        event.event_id.as_str(),
                    ),
                    None => true,
                },
                None => true,
            };
            if is_later {
                latest = Some(i);
            }
        }
        proof {
            let seen = positions.take(k as int);
            let now = positions.take(k + 1);
            if latest != before {
                assert(now[k as int] == i);
                assert forall|m: int|
                    0 <= m < now.len() && related@[#[trigger] now[m]].built is Some implies !reply_after(
                    related@,
                    i as int,
                    now[m],
                ) by {
                    if m == k {
                        key_after_facts(
                            related@[i as int].timestamp,
                            related@[i as int].built->0.event_id@,
                            related@[i as int].timestamp,
                            related@[i as int].built->0.event_id@,
                        );
                    } else {
                        assert(now[m] == seen[m]);
                        match before {
                            Some(at) => {
                                assert(!reply_after(related@, at as int, seen[m]));
                                if reply_after(related@, i as int, now[m]) {
                                    key_after_is_transitive(
                                        related@[at as int].timestamp,
                                        related@[at as int].built->0.event_id@,
                                        related@[i as int].timestamp,
                                        related@[i as int].built->0.event_id@,
                                        related@[now[m]].timestamp,
                                        related@[now[m]].built->0.event_id@,
                                    );
                                }
                            },
                            None => {
                                assert(positions[m] == now[m]);
                            },
                        }
                    }
                }
                assert(is_latest_reply(related@, now, i as int));
            } else {
                match before {
                    Some(at) => {
                        let m = choose|m: int| 0 <= m < seen.len() && seen[m] == at;
                        assert(now[m] == at);
                        assert forall|m: int|
                            0 <= m < now.len() && related@[#[trigger] now[m]].built
                                is Some implies !reply_after(related@, at as int, now[m]) by {
                            if m < k {
                                assert(now[m] == seen[m]);
                            }
                        }
                        assert(is_latest_reply(related@, now, at as int));
                    },
                    None => {},
                }
            }
        }
        k += 1;
    }
    assert(positions.take(k as int) =~= positions);
    let latest_event = match latest {
        Some(at) => project(&related[at]),
        None => None,
    };
    ThreadRelationAggregate { latest_event, num_replies }
}

/// The latest reply is unique where the replies have identifiers of their own, so the summary does
/// not depend on the order in which they are looked at.
pub proof fn latest_reply_is_unique(
    related: Seq<RelatedEvent>,
    positions: Seq<int>,
    one: int,
    other: int,
)
    requires
        is_latest_reply(related, positions, one),
        is_latest_reply(related, positions, other),
        related[one].built->0.event_id@ == related[other].built->0.event_id@ ==> one == other,
    ensures
        one == other,
{
    let k = choose|k: int| 0 <= k < positions.len() && positions[k] == other;
    let m = choose|m: int| 0 <= m < positions.len() && positions[m] == one;
    assert(!reply_after(related, one, positions[k]));
    assert(!reply_after(related, other, positions[m]));
    key_after_facts(
        related[one].timestamp,
        related[one].built->0.event_id@,
        related[other].timestamp,
        related[other].built->0.event_id@,
    );
}

/// Every reply counts once: no two of the original replies share an identifier, and every reply
/// shares its own with one of them.
pub proof fn replies_count_once(related: Seq<RelatedEvent>, root: Seq<char>)
    ensures
        forall|a: int, b: int|
            0 <= a < b < original_positions(related, root).len()
                ==> related[#[trigger] original_positions(related, root)[a]].event.id()
                != related[#[trigger] original_positions(related, root)[b]].event.id(),
        forall|i: int|
            0 <= i < related.len() && is_reply(#[trigger] related[i], root) ==> exists|k: int|
                0 <= k < original_positions(related, root).len()
                    && related[#[trigger] original_positions(related, root)[k]].event.id()
                    == related[i].event.id(),
{
    let positions = original_positions(related, root);
    original_positions_facts(related, root);
    assert forall|a: int, b: int| 0 <= a < b < positions.len() implies related[
        #[trigger] positions[a]
    ].event.id() != related[#[trigger] positions[b]].event.id() by {
        assert(is_original(related, root, positions[a]));
        assert(is_original(related, root, positions[b]));
        assert(is_reply(related[positions[a]], root));
    }
    assert forall|i: int|
        0 <= i < related.len() && is_reply(#[trigger] related[i], root) implies exists|k: int|
        0 <= k < positions.len() && related[#[trigger] positions[k]].event.id()
            == related[i].event.id() by {
        let first = first_with_id(related, root, i);
        assert(positions.contains(first));
        let k = choose|k: int| 0 <= k < positions.len() && positions[k] == first;
        assert(related[positions[k]].event.id() == related[i].event.id());
    }
}

proof fn first_with_id(related: Seq<RelatedEvent>, root: Seq<char>, i: int) -> (first: int)
    requires
        0 <= i < related.len(),
        is_reply(related[i], root),
    ensures
        is_original(related, root, first),
        related[first].event.id() == related[i].event.id(),
    decreases i,
{
    if is_original(related, root, i) {
        i
    } else {
        let j = choose|j: int|
            0 <= j < i && is_reply(#[trigger] related[j], root) && related[j].event.id()
                == related[i].event.id();
        first_with_id(related, root, j)
    }
}

/// An event that the cache relates to another one as its edit.
#[derive(Debug)]
pub struct RelatedEdit {
    /// The edit.
    pub event: Event,
    /// How it relates to another one.
    pub relation: Option<(RelationType, String)>,
    /// When it was sent, as far as its sender can be believed.
    pub timestamp: u64,
    /// Whether it may replace the event that it edits.
    pub is_valid: bool,
}

/// Whether the edit at a position is valid for an event: it is the first one with its identifier, is
/// not redacted, and replaces the event.
pub open spec fn is_valid_edit(edits: Seq<RelatedEdit>, original: Seq<char>, i: int) -> bool {
    &&& 0 <= i < edits.len()
    &&& edits[i].event.id() is Some
    &&& edits[i].event.id() != Some(original)
    &&& forall|j: int|
        0 <= j < i ==> (#[trigger] edits[j]).event.id() != edits[i].event.id()
    &&& !is_redacted(edits[i].event.unsigned)
    &&& relates_to(edits[i].relation, RelationType::Replacement, original)
    &&& edits[i].is_valid
}

/// Whether the edit at one position comes after the edit at another one.
pub open spec fn edit_after(edits: Seq<RelatedEdit>, i: int, j: int) -> bool {
    key_after(
        edits[i].timestamp,
        edits[i].event.id()->0,
        edits[j].timestamp,
        edits[j].event.id()->0,
    )
}

/// Whether the edit at a position is the latest valid one.
pub open spec fn is_latest_edit(edits: Seq<RelatedEdit>, original: Seq<char>, at: int) -> bool {
    &&& is_valid_edit(edits, original, at)
    &&& forall|j: int| #[trigger]
        is_valid_edit(edits, original, j) && j != at ==> edit_after(edits, j, at)
}

/// Finds the latest valid edit of an event. An event without an identifier has none.
pub fn latest_valid_replacement(original_id: &Option<String>, edits: &[RelatedEdit]) -> (r: Option<
    usize,
>)
    ensures
        match (opt_text(*original_id), r) {
            (Some(original), Some(at)) => is_latest_edit(edits@, original, at as int),
            (Some(original), None) => forall|i: int|
                !#[trigger] is_valid_edit(edits@, original, i),
            (None, r) => r is None,
        },
{
    let original = match original_id {
        Some(id) => id,
        None => {
            return None;
        },
    };
    let mut seen = IdSet::new();
    let mut latest: Option<usize> = None;
    let mut i: usize = 0;
    while i < edits.len()
        invariant
            i <= edits@.len(),
            *original_id == Some(*original),
            seen.wf(),
            forall|id: Seq<char>| #[trigger]
                seen@.contains(id) <==> exists|j: int|
                    0 <= j < i && (#[trigger] edits@[j]).event.id() == Some(id),
            match latest {
                Some(at) => {
                    &&& at < i
                    &&& is_valid_edit(edits@, original@, at as int)
                    &&& forall|j: int| #[trigger]
                        is_valid_edit(edits@, original@, j) && j < i && j != at ==> edit_after(
                            edits@,
                            j,
                            at as int,
                        )
                },
                None => forall|j: int| j < i ==> !#[trigger] is_valid_edit(edits@, original@, j),
            },
        decreases edits@.len() - i,
    {
        let ghost known = seen@;
        let ghost before = latest;
        if let Some(edit_id) = &edits[i].event.event_id {
            let is_first = seen.insert(edit_id.as_str());
            proof {
                assert(edits@[i as int].event.id() == Some(edit_id@));
                assert forall|id: Seq<char>| #[trigger] seen@.contains(id) <==> exists|j: int|
                    0 <= j < i + 1 && (#[trigger] edits@[j]).event.id() == Some(id) by {
                    if known.contains(id) {
                        let j = choose|j: int|
                            0 <= j < i && (#[trigger] edits@[j]).event.id() == Some(id);
                        assert(edits@[j].event.id() == Some(id));
                    }
                }
                if is_first {
                    assert forall|j: int| 0 <= j < i implies (#[trigger] edits@[j]).event.id()
                        != edits@[i as int].event.id() by {
                        if edits@[j].event.id() == Some(edit_id@) {
                            assert(known.contains(edit_id@));
                        }
                    }
                } else {
                    let j = choose|j: int|
                        0 <= j < i && (#[trigger] edits@[j]).event.id() == Some(edit_id@);
                    assert(edits@[j].event.id() == edits@[i as int].event.id());
                }
            }
            let is_candidate = is_first && !same_text(edit_id.as_str(), original.as_str())
                && !is_redacted_raw_event(&edits[i].event.unsigned) && has_relation(
                &edits[i].relation,
                RelationType::Replacement,
                original.as_str(),
            ) && edits[i].is_valid;
            assert(is_candidate == is_valid_edit(edits@, original@, i as int));
            if is_candidate {
                let is_later = match latest {
                    Some(at) => match &edits[at].event.event_id {
                        Some(current) => is_key_after(
                            edits[at].timestamp,
                            current.as_str(),
                            edits[i].timestamp,
                            edit_id.as_str(),
                        ),
                        None => true,
                    },
                    None => true,
                };
                if is_later {
                    latest = Some(i);
                }
                proof {
                    if let Some(at) = before {
                        assert(edits@[at as int].event.id() != edits@[i as int].event.id());
                        key_after_facts(
                            edits@[at as int].timestamp,
                            edits@[at as int].event.id()->0,
                            edits@[i as int].timestamp,
                            edits@[i as int].event.id()->0,
                        );
                        if is_later {
                            assert forall|j: int| #[trigger]
                                is_valid_edit(edits@, original@, j) && j < i + 1 && j
                                    != i implies edit_after(edits@, j, i as int) by {
                                if j != at {
                                    key_after_is_transitive(
                                        edits@[j].timestamp,
                                        edits@[j].event.id()->0,
                                        edits@[at as int].timestamp,
                                        edits@[at as int].event.id()->0,
                                        edits@[i as int].timestamp,
                                        edits@[i as int].event.id()->0,
                                    );
                                }
                            }
                        }
                    }
                }
            }
        } else {
            proof {
                assert(edits@[i as int].event.id() is None);
                assert forall|id: Seq<char>| #[trigger] seen@.contains(id) <==> exists|j: int|
                    0 <= j < i + 1 && (#[trigger] edits@[j]).event.id() == Some(id) by {
                    if known.contains(id) {
                        let j = choose|j: int|
                            0 <= j < i && (#[trigger] edits@[j]).event.id() == Some(id);
                        assert(edits@[j].event.id() == Some(id));
                    }
                }
            }
        }
        i += 1;
    }
    latest
}

/// `eyeball_im::ObservableVector`, a list whose changes can be watched.
#[verifier::external_type_specification]
#[verifier::external_body]
#[verifier::reject_recursive_types(T)]
pub struct ExObservableVector<T>(eyeball_im::ObservableVector<T>);

/// What an `eyeball_im::ObservableVector` of threads holds.
pub uninterp spec fn thread_items(
    list: eyeball_im::ObservableVector<ThreadListItem>,
) -> Seq<ThreadListItem>;

/// `eyeball_im::ObservableVector::new` gives an empty list.
#[verifier::external_body]
fn new_thread_items() -> (r: eyeball_im::ObservableVector<ThreadListItem>)
    ensures
        thread_items(r).len() == 0,
{
    eyeball_im::ObservableVector::new()
}

/// `eyeball_im::ObservableVector` reads like the `imbl::Vector` in it, whose `len` gives the number of
/// elements.
#[verifier::external_body]
fn thread_items_len(list: &eyeball_im::ObservableVector<ThreadListItem>) -> (r: usize)
    ensures
        r == thread_items(*list).len(),
{
    list.len()
}

/// `eyeball_im::ObservableVector` reads like the `imbl::Vector` in it, whose `get` gives the element
/// at an index, where there is one.
#[verifier::external_body]
fn thread_item_at(list: &eyeball_im::ObservableVector<ThreadListItem>, index: usize) -> (r: Option<
    &ThreadListItem,
>)
    ensures
        match r {
            Some(item) => index < thread_items(*list).len() && *item == thread_items(
                *list,
            )[index as int],
            None => index >= thread_items(*list).len(),
        },
{
    list.get(index)
}

/// `eyeball_im::ObservableVector::append` puts elements behind the last one, and tells those who
/// watch. It panics where the list would become too long.
#[verifier::external_body]
fn append_thread_items(
    list: &mut eyeball_im::ObservableVector<ThreadListItem>,
    items: Vec<ThreadListItem>,
)
    requires
        thread_items(*old(list)).len() + items@.len() < usize::MAX,
    ensures
        thread_items(*final(list)) == thread_items(*old(list)) + items@,
{
    list.append(items.into());
}

/// `eyeball_im::ObservableVector::set` replaces the element at an index, and tells those who watch.
/// It panics where there is no element. The former element is dropped.
#[verifier::external_body]
fn set_thread_item(
    list: &mut eyeball_im::ObservableVector<ThreadListItem>,
    index: usize,
    item: ThreadListItem,
)
    requires
        index < thread_items(*old(list)).len(),
    ensures
        thread_items(*final(list)) == thread_items(*old(list)).update(index as int, item),
{
    let _ = list.set(index, item);
}

/// `eyeball_im::ObservableVector::clear` removes all elements, and tells those who watch.
#[verifier::external_body]
fn clear_thread_items(list: &mut eyeball_im::ObservableVector<ThreadListItem>)
    ensures
        thread_items(*final(list)).len() == 0,
{
    list.clear();
}

/// Where the next page of a thread list starts.
#[derive(Debug)]
pub enum PaginationToken {
    /// At the beginning.
    Start,
    /// At a token.
    HasMore(String),
    /// There is no next page.
    HitEnd,
}

/// A request for a page of a thread list.
#[derive(Debug)]
pub struct ListThreadsOptions {
    /// The token to start from, `None` for the beginning.
    pub from: Option<String>,
}

/// The token that a page starts from, `None` for the beginning.
pub open spec fn start_of(token: PaginationToken) -> Option<String> {
    match token {
        PaginationToken::HasMore(token) => Some(token),
        _ => None,
    }
}

/// The summary of the server that an item holds, where it says anything.
pub open spec fn bundled_of(item: ThreadListItem) -> Option<BundledThreadProof> {
    if item.num_replies > 0 || item.latest_event is Some {
        Some(
            BundledThreadProof { latest_event: item.latest_event, num_replies: item.num_replies },
        )
    } else {
        None
    }
}

/// What is known of the summary of a thread that was just loaded.
pub open spec fn loaded_proof(item: ThreadListItem) -> ThreadRelationProof {
    ThreadRelationProof { bundled: bundled_of(item), complete: bundled_of(item) is None }
}

/// What is known of summaries after the items of a page.
pub open spec fn with_loaded_proofs(
    proofs: Map<Seq<char>, ThreadRelationProof>,
    items: Seq<ThreadListItem>,
) -> Map<Seq<char>, ThreadRelationProof>
    decreases items.len(),
{
    if items.len() == 0 {
        proofs
    } else {
        with_loaded_proofs(proofs, items.drop_last()).insert(
            items.last().root_event.event_id@,
            loaded_proof(items.last()),
        )
    }
}

/// What is known of a thread's summary before anything was loaded of it.
pub open spec fn unknown_proof() -> ThreadRelationProof {
    ThreadRelationProof { bundled: None, complete: true }
}

/// What is known of a thread's summary.
pub open spec fn proof_of(
    proofs: Map<Seq<char>, ThreadRelationProof>,
    root: Seq<char>,
) -> ThreadRelationProof {
    if proofs.contains_key(root) {
        proofs[root]
    } else {
        unknown_proof()
    }
}

/// What is known of a thread's summary once its relations were counted: they are complete from the
/// time that they reach the count of the server.
pub open spec fn proof_after(before: ThreadRelationProof, num_replies: u32) -> ThreadRelationProof {
    let proven = before.bundled is None || num_replies >= before.bundled->0.num_replies;
    ThreadRelationProof { complete: before.complete || proven, ..before }
}

/// The summary that is shown: that of the relations once they are complete, and that of the server
/// before.
pub open spec fn shown_summary(
    after: ThreadRelationProof,
    aggregate: ThreadRelationAggregate,
) -> (Option<ThreadListItemEvent>, u32) {
    if after.complete {
        (aggregate.latest_event, aggregate.num_replies)
    } else {
        (after.bundled->0.latest_event, after.bundled->0.num_replies)
    }
}

/// Whether `at` is the first item of a thread.
pub open spec fn is_first_item(items: Seq<ThreadListItem>, root: Seq<char>, at: int) -> bool {
    &&& 0 <= at < items.len()
    &&& items[at].root_event.event_id@ == root
    &&& forall|j: int| 0 <= j < at ==> (#[trigger] items[j]).root_event.event_id@ != root
}

/// Whether a list is another one with the summary of a thread's first item replaced.
pub open spec fn shows_summary(
    before: Seq<ThreadListItem>,
    after: Seq<ThreadListItem>,
    root: Seq<char>,
    summary: (Option<ThreadListItemEvent>, u32),
) -> bool {
    ||| after == before && forall|j: int|
        0 <= j < before.len() ==> (#[trigger] before[j]).root_event.event_id@ != root
    ||| exists|at: int| #[trigger]
        is_first_item(before, root, at) && after == before.update(
            at,
            ThreadListItem {
                latest_event: summary.0,
                num_replies: summary.1,
                ..before[at]
            },
        )
}

/// What the listener learns from the event cache.
#[derive(Debug)]
pub enum RoomEventCacheUpdate {
    /// The timeline changed.
    UpdateTimelineEvents(Vec<VectorDiff<Event>>),
    /// Something else changed.
    Other,
    /// Updates were missed.
    Lagged,
    /// There will be no more updates.
    Closed,
}

/// What the listener does.
#[derive(Debug)]
pub enum ListenerAction {
    /// The threads with these roots are resolved again.
    Resolve(Vec<String>),
    /// The threads that these events affect are looked for.
    FindAffected(Vec<Event>),
    /// Nothing.
    Continue,
    /// It ends.
    Stop,
}

/// An event of an update, as far as threads are concerned.
#[derive(Debug)]
pub struct AffectingEvent {
    /// How it relates to another one.
    pub relation: Option<(RelationType, String)>,
    /// The thread root of the event that it replaces, where it replaces one in a thread.
    pub replaced_thread_root: Option<String>,
}

/// The thread that an event affects: that which it belongs to, or that of the event it replaces.
pub open spec fn affected_root(event: AffectingEvent) -> Option<Seq<char>> {
    match event.relation {
        Some((RelationType::Thread, target)) => Some(target@),
        Some((RelationType::Replacement, _)) => opt_text(event.replaced_thread_root),
        _ => None,
    }
}

/// Whether one of the events affects a thread.
pub open spec fn is_affected(events: Seq<AffectingEvent>, root: Seq<char>) -> bool {
    exists|i: int| 0 <= i < events.len() && affected_root(#[trigger] events[i]) == Some(root)
}

/// Collects the roots of the threads that events affect, each of them once.
pub fn collect_affected_roots(events: &[AffectingEvent]) -> (r: Vec<String>)
    ensures
        texts(r@).no_duplicates(),
        forall|root: Seq<char>| #[trigger]
            text_set(r@).contains(root) <==> is_affected(events@, root),
{
    let mut roots = IdSet::new();
    let mut i: usize = 0;
    while i < events.len()
        invariant
            i <= events@.len(),
            roots.wf(),
            forall|root: Seq<char>| #[trigger]
                roots@.contains(root) <==> is_affected(events@.take(i as int), root),
        decreases events@.len() - i,
    {
        let ghost known = roots@;
        match &events[i].relation {
            Some((RelationType::Thread, target)) => {
                let _ = roots.insert(target.as_str());
            },
            Some((RelationType::Replacement, _)) => {
                if let Some(root) = &events[i].replaced_thread_root {
                    let _ = roots.insert(root.as_str());
                }
            },
            _ => {},
        }
        proof {
            let before = events@.take(i as int);
            let now = events@.take(i + 1);
            assert(now[i as int] == events@[i as int]);
            assert forall|root: Seq<char>| #[trigger] roots@.contains(root) <==> is_affected(
                now,
                root,
            ) by {
                if known.contains(root) {
                    assert(is_affected(before, root));
                    let k = choose|k: int|
                        0 <= k < before.len() && affected_root(#[trigger] before[k]) == Some(root);
                    assert(now[k] == before[k]);
                }
                if affected_root(events@[i as int]) == Some(root) {
                    assert(affected_root(now[i as int]) == Some(root));
                }
                if is_affected(now, root) && affected_root(events@[i as int]) != Some(root) {
                    let k = choose|k: int|
                        0 <= k < now.len() && affected_root(#[trigger] now[k]) == Some(root);
                    assert(before[k] == now[k]);
                    assert(is_affected(before, root));
                }
            }
        }
        i += 1;
    }
    assert(events@.take(i as int) =~= events@);
    roots.to_ids()
}

/// A paginated list of the threads of a room.
pub struct ThreadListService {
    proofs: StringHashMap<ThreadRelationProof>,
    token: PaginationToken,
    pagination_state: ThreadListPaginationState,
    items: eyeball_im::ObservableVector<ThreadListItem>,
}

impl ThreadListService {
    /// The threads of the list.
    pub closed spec fn threads(self) -> Seq<ThreadListItem> {
        thread_items(self.items)
    }

    /// What is known of the summaries.
    pub closed spec fn known_proofs(self) -> Map<Seq<char>, ThreadRelationProof> {
        self.proofs@
    }

    /// Where the next page starts.
    pub closed spec fn next_page(self) -> PaginationToken {
        self.token
    }

    /// The pagination state.
    pub closed spec fn pagination(self) -> ThreadListPaginationState {
        self.pagination_state
    }

    /// A summary that is not known to be complete is one that the server gave.
    pub open spec fn wf(self) -> bool {
        forall|root: Seq<char>| #[trigger]
            self.known_proofs().contains_key(root) ==> (self.known_proofs()[root].complete
                || self.known_proofs()[root].bundled is Some)
    }

    /// Whether the list is as it was in the beginning.
    pub open spec fn is_initial(self) -> bool {
        &&& self.threads() == Seq::<ThreadListItem>::empty()
        &&& self.known_proofs() == Map::<Seq<char>, ThreadRelationProof>::empty()
        &&& self.next_page() is Start
        &&& self.pagination() == ThreadListPaginationState::Idle { end_reached: false }
    }

    /// A list without threads.
    pub fn new() -> (r: Self)
        ensures
            r.wf(),
            r.is_initial(),
    {
        let r = ThreadListService {
            proofs: StringHashMap::new(),
            token: PaginationToken::Start,
            pagination_state: ThreadListPaginationState::Idle { end_reached: false },
            items: new_thread_items(),
        };
        assert(r.threads() =~= Seq::empty());
        r
    }

    /// The current pagination state.
    pub fn pagination_state(&self) -> (r: ThreadListPaginationState)
        ensures
            r == self.pagination(),
    {
        self.pagination_state
    }

    /// The current threads.
    pub fn items(&self) -> (r: Vec<ThreadListItem>)
        ensures
            r@ == self.threads(),
    {
        let mut items: Vec<ThreadListItem> = Vec::new();
        let mut i: usize = 0;
        while i < thread_items_len(&self.items)
            invariant
                i <= self.threads().len(),
                items@ == self.threads().take(i as int),
            decreases self.threads().len() - i,
        {
            if let Some(item) = thread_item_at(&self.items, i) {
                items.push(item.clone());
            }
            assert(items@ =~= self.threads().take(i + 1));
            i += 1;
        }
        assert(self.threads().take(i as int) =~= self.threads());
        items
    }

    /// The list itself, to subscribe to.
    pub fn subscribe_to_items_updates(&self) -> (r: &eyeball_im::ObservableVector<ThreadListItem>)
        ensures
            thread_items(*r) == self.threads(),
    {
        &self.items
    }

    /// The roots of all threads in the list, in order.
    pub fn tracked_roots(&self) -> (r: Vec<String>)
        ensures
            r@ == self.threads().map_values(|item: ThreadListItem| item.root_event.event_id),
    {
        let mut roots: Vec<String> = Vec::new();
        let ghost all = self.threads().map_values(
            |item: ThreadListItem| item.root_event.event_id,
        );
        let mut i: usize = 0;
        while i < thread_items_len(&self.items)
            invariant
                i <= self.threads().len(),
                all == self.threads().map_values(
                    |item: ThreadListItem| item.root_event.event_id,
                ),
                roots@ == all.take(i as int),
            decreases self.threads().len() - i,
        {
            if let Some(item) = thread_item_at(&self.items, i) {
                roots.push(item.root_event.event_id.clone());
            }
            assert(roots@ =~= all.take(i + 1));
            i += 1;
        }
        assert(all.take(i as int) =~= all);
        roots
    }

    /// Starts to fetch the next page. Where the list is loading already, or has reached its end,
    /// nothing happens and the result is `None`.
    pub fn paginate(&mut self) -> (r: Option<ListThreadsOptions>)
        requires
            old(self).wf(),
        ensures
            final(self).wf(),
            final(self).threads() == old(self).threads(),
            final(self).known_proofs() == old(self).known_proofs(),
            final(self).next_page() == old(self).next_page(),
            old(self).pagination() != (ThreadListPaginationState::Idle { end_reached: false }) ==> r
                is None && final(self).pagination() == old(self).pagination(),
            old(self).pagination() == (ThreadListPaginationState::Idle { end_reached: false }) ==> {
                &&& final(self).pagination() == ThreadListPaginationState::Loading
                &&& r matches Some(options)
                &&& options.from == start_of(old(self).next_page())
            },
    {
        match self.pagination_state {
            ThreadListPaginationState::Idle { end_reached } => {
                if end_reached {
                    return None;
                }
            },
            ThreadListPaginationState::Loading => {
                return None;
            },
        }
        self.pagination_state = ThreadListPaginationState::Loading;
        let from = match &self.token {
            PaginationToken::HasMore(token) => Some(token.clone()),
            _ => None,
        };
        Some(ListThreadsOptions { from })
    }

    /// Takes in the page that was fetched. Its threads are appended, and the result are their
    /// roots, which are to be resolved before the page is complete. An error ends the loading.
    pub fn page_loaded(&mut self, page: Result<ThreadList, String>) -> (r: Result<
        Vec<String>,
        ThreadListServiceError,
    >)
        requires
            old(self).wf(),
            page matches Ok(list) ==> old(self).threads().len() + list.items@.len() < usize::MAX,
        ensures
            final(self).wf(),
            match page {
                Ok(list) => {
                    &&& r matches Ok(roots)
                    &&& roots@ == list.items@.map_values(
                        |item: ThreadListItem| item.root_event.event_id,
                    )
                    &&& final(self).threads() == old(self).threads() + list.items@
                    &&& final(self).known_proofs() == with_loaded_proofs(
                        old(self).known_proofs(),
                        list.items@,
                    )
                    &&& final(self).next_page() == match list.prev_batch_token {
                        Some(token) => PaginationToken::HasMore(token),
                        None => PaginationToken::HitEnd,
                    }
                    &&& final(self).pagination() == old(self).pagination()
                },
                Err(error) => {
                    &&& r == Err::<Vec<String>, ThreadListServiceError>(
                        ThreadListServiceError::Sdk(error),
                    )
                    &&& final(self).threads() == old(self).threads()
                    &&& final(self).known_proofs() == old(self).known_proofs()
                    &&& final(self).next_page() == old(self).next_page()
                    &&& final(self).pagination() == (ThreadListPaginationState::Idle {
                        end_reached: false,
                    })
                },
            },
    {
        let list = match page {
            Ok(list) => list,
            Err(error) => {
                self.pagination_state = ThreadListPaginationState::Idle { end_reached: false };
                return Err(ThreadListServiceError::Sdk(error));
            },
        };
        self.token = match list.prev_batch_token {
            Some(token) => PaginationToken::HasMore(token),
            None => PaginationToken::HitEnd,
        };
        let mut roots: Vec<String> = Vec::new();
        let ghost all = list.items@.map_values(|item: ThreadListItem| item.root_event.event_id);
        let mut i: usize = 0;
        assert(list.items@.take(0) =~= Seq::empty());
        while i < list.items.len()
            invariant
                i <= list.items@.len(),
                self.wf(),
                all == list.items@.map_values(|item: ThreadListItem| item.root_event.event_id),
                roots@ == all.take(i as int),
                self.threads() == old(self).threads(),
                self.pagination() == old(self).pagination(),
                self.next_page() == match list.prev_batch_token {
                    Some(token) => PaginationToken::HasMore(token),
                    None => PaginationToken::HitEnd,
                },
                self.known_proofs() == with_loaded_proofs(
                    old(self).known_proofs(),
                    list.items@.take(i as int),
                ),
            decreases list.items@.len() - i,
        {
            let item = &list.items[i];
            let bundled = if item.num_replies > 0 || item.latest_event.is_some() {
                Some(
                    BundledThreadProof {
                        latest_event: item.latest_event.clone(),
                        num_replies: item.num_replies,
                    },
                )
            } else {
                None
            };
            let complete = bundled.is_none();
            self.proofs.insert(
                item.root_event.event_id.clone(),
                ThreadRelationProof { bundled, complete },
            );
            roots.push(item.root_event.event_id.clone());
            proof {
                assert(list.items@.take(i + 1).drop_last() =~= list.items@.take(i as int));
                assert(list.items@.take(i + 1).last() == *item);
                assert(roots@ =~= all.take(i + 1));
            }
            i += 1;
        }
        proof {
            assert(list.items@.take(i as int) =~= list.items@);
            assert(all.take(i as int) =~= all);
        }
        append_thread_items(&mut self.items, list.items);
        Ok(roots)
    }

    /// Ends the loading of a page whose threads were resolved.
    pub fn page_resolved(&mut self)
        requires
            old(self).wf(),
        ensures
            final(self).wf(),
            final(self).threads() == old(self).threads(),
            final(self).known_proofs() == old(self).known_proofs(),
            final(self).next_page() == old(self).next_page(),
            final(self).pagination() == (ThreadListPaginationState::Idle {
                end_reached: old(self).next_page() is HitEnd,
            }),
    {
        let end_reached = match &self.token {
            PaginationToken::HitEnd => true,
            _ => false,
        };
        self.pagination_state = ThreadListPaginationState::Idle { end_reached };
    }

    /// Resets the list to its initial state: the next page is the first one again.
    pub fn reset(&mut self)
        ensures
            final(self).wf(),
            final(self).is_initial(),
    {
        self.token = PaginationToken::Start;
        clear_thread_items(&mut self.items);
        self.proofs.clear();
        self.pagination_state = ThreadListPaginationState::Idle { end_reached: false };
        assert(self.threads() =~= Seq::empty());
    }

    /// Takes in the summary of a thread that its relations give. It is shown once it counts at
    /// least as many replies as the server did, and from then on always.
    pub fn apply_aggregate(&mut self, root_event_id: String, aggregate: ThreadRelationAggregate)
        requires
            old(self).wf(),
        ensures
            final(self).wf(),
            final(self).next_page() == old(self).next_page(),
            final(self).pagination() == old(self).pagination(),
            ({
                let after = proof_after(
                    proof_of(old(self).known_proofs(), root_event_id@),
                    aggregate.num_replies,
                );
                &&& final(self).known_proofs() == old(self).known_proofs().insert(
                    root_event_id@,
                    after,
                )
                &&& shows_summary(
                    old(self).threads(),
                    final(self).threads(),
                    root_event_id@,
                    shown_summary(after, aggregate),
                )
            }),
            ({
                let known = old(self).known_proofs().contains_key(root_event_id@);
                let said = old(self).known_proofs()[root_event_id@].bundled;
                &&& final(self).known_proofs().contains_key(root_event_id@)
                &&& known && said is Some && aggregate.num_replies >= said->0.num_replies
                    ==> final(self).known_proofs()[root_event_id@].complete
            }),
    {
        let ghost before = proof_of(self.known_proofs(), root_event_id@);
        let (bundled, complete) = match self.proofs.get(root_event_id.as_str()) {
            Some(known) => {
                let bundled = match &known.bundled {
                    Some(bundled) => Some(
                        BundledThreadProof {
                            latest_event: bundled.latest_event.clone(),
                            num_replies: bundled.num_replies,
                        },
                    ),
                    None => None,
                };
                (bundled, known.complete)
            },
            None => (None, true),
        };
        let local_proven = match &bundled {
            Some(bundled) => aggregate.num_replies >= bundled.num_replies,
            None => true,
        };
        let complete = complete || local_proven;
        let (latest_event, num_replies) = match &bundled {
            Some(bundled) => if complete {
                (aggregate.latest_event, aggregate.num_replies)
            } else {
                (bundled.latest_event.clone(), bundled.num_replies)
            },
            None => (aggregate.latest_event, aggregate.num_replies),
        };
        let after = ThreadRelationProof { bundled, complete };
        assert(after == proof_after(before, aggregate.num_replies));
        let key = root_event_id.clone();
        self.proofs.insert(key, after);
        let mut i: usize = 0;
        while i < thread_items_len(&self.items)
            invariant
                i <= self.threads().len(),
                self.threads() == old(self).threads(),
                self.wf(),
                self.next_page() == old(self).next_page(),
                self.pagination() == old(self).pagination(),
                self.known_proofs() == old(self).known_proofs().insert(root_event_id@, after),
                after == proof_after(
                    proof_of(old(self).known_proofs(), root_event_id@),
                    aggregate.num_replies,
                ),
                (latest_event, num_replies) == shown_summary(after, aggregate),
                forall|j: int|
                    0 <= j < i ==> (#[trigger] self.threads()[j]).root_event.event_id@
                        != root_event_id@,
            decreases self.threads().len() - i,
        {
            let found = match thread_item_at(&self.items, i) {
                Some(item) => if same_text(
                    item.root_event.event_id.as_str(),
                    root_event_id.as_str(),
                ) {
                    Some(item.clone())
                } else {
                    None
                },
                None => None,
            };
            if let Some(item) = found {
                let mut updated = item;
                updated.latest_event = latest_event;
                updated.num_replies = num_replies;
                set_thread_item(&mut self.items, i, updated);
                assert(is_first_item(old(self).threads(), root_event_id@, i as int));
                return;
            }
            i += 1;
        }
    }

    /// Decides what an update of the event cache asks for. A redaction, or a missed update, hides
    /// which threads changed: all threads of the list are resolved again.
    pub fn event_cache_listener_step(&self, update: RoomEventCacheUpdate) -> (r: ListenerAction)
        ensures
            match update {
                RoomEventCacheUpdate::UpdateTimelineEvents(diffs) => {
                    let events = brought_by_all(diffs@);
                    if hides_what_changed(events) {
                        r matches ListenerAction::Resolve(roots) && roots@
                            == self.threads().map_values(
                            |item: ThreadListItem| item.root_event.event_id,
                        )
                    } else {
                        r matches ListenerAction::FindAffected(found) && found@ == events
                    }
                },
                RoomEventCacheUpdate::Other => r is Continue,
                RoomEventCacheUpdate::Lagged => r matches ListenerAction::Resolve(roots) && roots@
                    == self.threads().map_values(
                    |item: ThreadListItem| item.root_event.event_id,
                ),
                RoomEventCacheUpdate::Closed => r is Stop,
            },
    {
        match update {
            RoomEventCacheUpdate::UpdateTimelineEvents(diffs) => {
                let events = collect_events_from_diffs(diffs);
                if any_requires_full_reconciliation(&events) {
                    return ListenerAction::Resolve(self.tracked_roots());
                }
                ListenerAction::FindAffected(events)
            },
            RoomEventCacheUpdate::Other => ListenerAction::Continue,
            RoomEventCacheUpdate::Lagged => ListenerAction::Resolve(self.tracked_roots()),
            RoomEventCacheUpdate::Closed => ListenerAction::Stop,
        }
    }
}

/// A list in its initial state, as after a reset, asks for the first page.
pub proof fn initial_list_starts_from_the_beginning(list: ThreadListService)
    requires
        list.is_initial(),
    ensures
        start_of(list.next_page()) is None,
        list.pagination() == (ThreadListPaginationState::Idle { end_reached: false }),
{
}

/// Once the relations of a thread are complete, they stay so, whatever is counted later: from then on
/// the summary that is shown is that of the relations.
pub proof fn completeness_is_kept(
    before: ThreadRelationProof,
    num_replies: u32,
    aggregate: ThreadRelationAggregate,
)
    requires
        before.complete,
    ensures
        proof_after(before, num_replies).complete,
        shown_summary(proof_after(before, aggregate.num_replies), aggregate) == (
            aggregate.latest_event,
            aggregate.num_replies,
        ),
{
}

/// Before the relations are complete, the summary that is shown never counts fewer replies than the
/// server did.
pub proof fn incomplete_relations_do_not_shrink_a_thread(
    before: ThreadRelationProof,
    aggregate: ThreadRelationAggregate,
)
    requires
        !before.complete,
        before.bundled is Some,
    ensures
        shown_summary(proof_after(before, aggregate.num_replies), aggregate).1
            >= before.bundled->0.num_replies,
{
}

/// The relations of a thread take over from the server as soon as they count at least as many replies
/// as it did, and at once where it said nothing: from then on they are complete, and what is shown is
/// their own latest event and count. Before that, what the server said is shown.
pub proof fn relations_take_over_when_they_count_enough(
    proofs: Map<Seq<char>, ThreadRelationProof>,
    root: Seq<char>,
    aggregate: ThreadRelationAggregate,
)
    ensures
        ({
            let known = proofs.contains_key(root);
            let said = proofs[root].bundled;
            let after = proof_after(proof_of(proofs, root), aggregate.num_replies);
            let shown = shown_summary(after, aggregate);
            &&& !known || proofs[root].complete || said is None || aggregate.num_replies
                >= said->0.num_replies ==> {
                &&& after.complete
                &&& shown.0 == aggregate.latest_event
                &&& shown.1 == aggregate.num_replies
            }
            &&& known && !proofs[root].complete && said is Some && aggregate.num_replies
                < said->0.num_replies ==> {
                &&& !after.complete
                &&& shown.0 == said->0.latest_event
                &&& shown.1 == said->0.num_replies
            }
            &&& known ==> after.bundled == said
            &&& !known ==> after.bundled is None
        }),
{
}

/// To count more replies never makes relations less complete.
pub proof fn more_replies_do_not_undo_completeness(
    before: ThreadRelationProof,
    fewer: u32,
    more: u32,
)
    requires
        fewer <= more,
    ensures
        proof_after(before, fewer).complete ==> proof_after(before, more).complete,
        proof_after(before, fewer).bundled == proof_after(before, more).bundled,
        before.bundled matches Some(said) ==> proof_after(before, said.num_replies).complete,
{
}

/// Of a thread that was just loaded, the summary of the server is kept where it has replies or a latest
/// event, and then waits for the relations to count as many.
pub proof fn loaded_summary_waits_for_the_relations(item: ThreadListItem)
    ensures
        item.num_replies == 0 && item.latest_event is None ==> loaded_proof(item).bundled is None
            && loaded_proof(item).complete,
        item.num_replies > 0 || item.latest_event is Some ==> {
            &&& loaded_proof(item).bundled matches Some(said)
            &&& said.latest_event == item.latest_event
            &&& said.num_replies == item.num_replies
            &&& !loaded_proof(item).complete
        },
{
}

/// Each item of a page replaces what was known of its thread, and of no other one.
pub proof fn loaded_item_replaces_what_was_known(
    proofs: Map<Seq<char>, ThreadRelationProof>,
    items: Seq<ThreadListItem>,
    item: ThreadListItem,
    root: Seq<char>,
)
    ensures
        with_loaded_proofs(proofs, Seq::empty()) == proofs,
        ({
            let before = with_loaded_proofs(proofs, items);
            let now = with_loaded_proofs(proofs, items.push(item));
            &&& root == item.root_event.event_id@ ==> now.contains_key(root) && now[root]
                == loaded_proof(item)
            &&& root != item.root_event.event_id@ ==> now.contains_key(root)
                == before.contains_key(root)
            &&& root != item.root_event.event_id@ && before.contains_key(root) ==> now[root]
                == before[root]
        }),
{
    assert(items.push(item).drop_last() =~= items);
}

/// What is shown of a thread changes its first item only, and of that only the latest event and the
/// number of replies. Where the thread is not in the list, nothing changes.
pub proof fn summary_changes_the_first_item_of_its_thread_only(
    before: Seq<ThreadListItem>,
    after: Seq<ThreadListItem>,
    root: Seq<char>,
    summary: (Option<ThreadListItemEvent>, u32),
    i: int,
)
    requires
        shows_summary(before, after, root, summary),
        0 <= i < before.len(),
    ensures
        after.len() == before.len(),
        after[i].root_event == before[i].root_event,
        ({
            let is_first = before[i].root_event.event_id@ == root && forall|j: int|
                0 <= j < i ==> (#[trigger] before[j]).root_event.event_id@ != root;
            &&& is_first ==> after[i].latest_event == summary.0 && after[i].num_replies == summary.1
            &&& !is_first ==> after[i] == before[i]
        }),
{
    let is_first = before[i].root_event.event_id@ == root && forall|j: int|
        0 <= j < i ==> (#[trigger] before[j]).root_event.event_id@ != root;
    if !(after == before && forall|j: int|
        0 <= j < before.len() ==> (#[trigger] before[j]).root_event.event_id@ != root) {
        let at = choose|at: int| #[trigger]
            is_first_item(before, root, at) && after == before.update(
                at,
                ThreadListItem {
                    latest_event: summary.0,
                    num_replies: summary.1,
                    ..before[at]
                },
            );
        if is_first && at < i {
            assert(before[at].root_event.event_id@ != root);
        }
        if is_first && i < at {
            assert(before[i].root_event.event_id@ != root);
        }
    }
}

/// Whether an event counts as a reply: it has an identifier, was not redacted, and belongs to the
/// thread of the root.
pub proof fn reply_belongs_to_the_thread_of_its_root(event: RelatedEvent, root: Seq<char>)
    ensures
        is_reply(event, root) <==> event.event.event_id is Some && !(event.event.unsigned is Some
            && event.event.unsigned->0.redacted_because is Some) && (event.relation is Some
            && (event.relation->0).0 is Thread && (event.relation->0).1@ == root),
{
}

/// One more event counts as one more reply exactly where it is a reply whose identifier no reply before
/// it has. The positions of the other replies stay.
pub proof fn reply_counts_where_its_identifier_is_new(
    related: Seq<RelatedEvent>,
    root: Seq<char>,
    event: RelatedEvent,
)
    ensures
        original_positions(Seq::empty(), root).len() == 0,
        ({
            let before = original_positions(related, root);
            let now = original_positions(related.push(event), root);
            let is_known = exists|j: int|
                0 <= j < related.len() && is_reply(#[trigger] related[j], root)
                    && related[j].event.event_id is Some && related[j].event.event_id->0@
                    == event.event.event_id->0@;
            &&& is_reply(event, root) && !is_known ==> now == before.push(related.len() as int)
            &&& !is_reply(event, root) || is_known ==> now == before
        }),
{
    let more = related.push(event);
    let last = related.len() as int;
    assert(more.drop_last() =~= related);
    assert(more[last] == event);
    assert forall|j: int| 0 <= j < related.len() implies #[trigger] more[j] == related[j] by {}
    let is_known = exists|j: int|
        0 <= j < related.len() && is_reply(#[trigger] related[j], root)
            && related[j].event.event_id is Some && related[j].event.event_id->0@
            == event.event.event_id->0@;
    if is_reply(event, root) {
        if is_known {
            let j = choose|j: int|
                0 <= j < related.len() && is_reply(#[trigger] related[j], root)
                    && related[j].event.event_id is Some && related[j].event.event_id->0@
                    == event.event.event_id->0@;
            assert(is_reply(more[j], root));
            assert(more[j].event.id() == more[last].event.id());
        } else {
            assert forall|j: int|
                0 <= j < last && is_reply(#[trigger] more[j], root) implies more[j].event.id()
                != more[last].event.id() by {
                assert(is_reply(related[j], root));
            }
        }
    }
}

/// The summary of the relations counts the replies, and shows the one that was sent last: no other reply
/// that can be shown was sent later, nor at the same time with a greater identifier.
pub proof fn summary_shows_the_reply_that_was_sent_last(
    aggregate: ThreadRelationAggregate,
    related: Seq<RelatedEvent>,
    root: Seq<char>,
)
    requires
        is_aggregate_of(aggregate, related, root),
    ensures
        original_positions(related, root).len() <= u32::MAX ==> aggregate.num_replies
            == original_positions(related, root).len(),
        original_positions(related, root).len() > u32::MAX ==> aggregate.num_replies == u32::MAX,
        aggregate.latest_event is None <==> forall|k: int|
            0 <= k < original_positions(related, root).len() ==> related[
                #[trigger] original_positions(related, root)[k]
            ].built is None,
        aggregate.latest_event matches Some(shown) ==> exists|at: int|
            #![trigger related[at]]
            {
                &&& original_positions(related, root).contains(at)
                &&& related[at].built is Some
                &&& projected(related[at]) == Some(shown)
                &&& forall|k: int|
                    0 <= k < original_positions(related, root).len() && related[
                        #[trigger] original_positions(related, root)[k]
                    ].built is Some ==> {
                        let other = related[original_positions(related, root)[k]];
                        &&& other.timestamp <= related[at].timestamp
                        &&& other.timestamp == related[at].timestamp ==> !text_precedes(
                            related[at].built->0.event_id@,
                            other.built->0.event_id@,
                        )
                    }
            },
{
    let positions = original_positions(related, root);
    if let Some(shown) = aggregate.latest_event {
        let at = choose|at: int| #[trigger]
            is_latest_reply(related, positions, at) && projected(related[at]) == Some(shown);
        assert(positions.contains(at));
        let m = choose|m: int| 0 <= m < positions.len() && positions[m] == at;
        assert(related[positions[m]].built is Some);
        assert forall|k: int|
            0 <= k < positions.len() && related[#[trigger] positions[k]].built is Some implies {
            let other = related[positions[k]];
            &&& other.timestamp <= related[at].timestamp
            &&& other.timestamp == related[at].timestamp ==> !text_precedes(
                related[at].built->0.event_id@,
                other.built->0.event_id@,
            )
        } by {
            assert(!reply_after(related, at, positions[k]));
        }
    }
}

/// A reply is shown as it was sent, with the content of its edit in place of its own where that could be
/// decrypted.
pub proof fn reply_is_shown_with_its_edited_content(event: RelatedEvent)
    ensures
        projected(event) is Some <==> event.built is Some,
        projected(event) matches Some(shown) ==> {
            let built = event.built->0;
            &&& shown.event_id == built.event_id
            &&& shown.timestamp == built.timestamp
            &&& shown.sender == built.sender
            &&& shown.is_own == built.is_own
            &&& shown.sender_profile == built.sender_profile
            &&& event.replacement is Some && !event.replacement->0.unable_to_decrypt
                ==> shown.content == event.replacement
            &&& event.replacement is None || event.replacement->0.unable_to_decrypt
                ==> shown.content == built.content
        },
{
}

/// An edit is valid where it may replace the event, has an identifier that neither the event nor an
/// earlier edit has, was not redacted, and names the event as the one it replaces.
pub proof fn valid_edit_replaces_the_event(edits: Seq<RelatedEdit>, original: Seq<char>, i: int)
    requires
        0 <= i < edits.len(),
    ensures
        is_valid_edit(edits, original, i) <==> {
            &&& edits[i].is_valid
            &&& edits[i].event.event_id is Some
            &&& edits[i].event.event_id->0@ != original
            &&& !(edits[i].event.unsigned is Some
                && edits[i].event.unsigned->0.redacted_because is Some)
            &&& edits[i].relation is Some
            &&& (edits[i].relation->0).0 is Replacement
            &&& (edits[i].relation->0).1@ == original
            &&& forall|j: int|
                0 <= j < i && (#[trigger] edits[j]).event.event_id is Some
                    ==> edits[j].event.event_id->0@ != edits[i].event.event_id->0@
        },
{
    if edits[i].event.event_id is Some && forall|j: int|
        0 <= j < i && (#[trigger] edits[j]).event.event_id is Some ==> edits[j].event.event_id->0@
            != edits[i].event.event_id->0@ {
        assert forall|j: int| 0 <= j < i implies (#[trigger] edits[j]).event.id()
            != edits[i].event.id() by {}
    }
    if is_valid_edit(edits, original, i) {
        assert forall|j: int|
            0 <= j < i && (
            #[trigger] edits[j]).event.event_id is Some implies edits[j].event.event_id->0@
            != edits[i].event.event_id->0@ by {
            assert(edits[j].event.id() != edits[i].event.id());
        }
    }
}

/// The latest edit is a valid one, and every other valid one was sent before it, or at the same time
/// with a lesser identifier.
pub proof fn latest_edit_was_sent_last(
    edits: Seq<RelatedEdit>,
    original: Seq<char>,
    at: int,
    other: int,
)
    requires
        is_latest_edit(edits, original, at),
        is_valid_edit(edits, original, other),
        other != at,
    ensures
        is_valid_edit(edits, original, at),
        edits[other].timestamp <= edits[at].timestamp,
        edits[other].timestamp == edits[at].timestamp ==> text_precedes(
            edits[other].event.event_id->0@,
            edits[at].event.event_id->0@,
        ),
{
    assert(edit_after(edits, other, at));
}

/// A later time comes after an earlier one whatever the identifiers are; at the same time the
/// identifiers decide.
pub proof fn keys_are_ordered_by_time_first(a_time: u64, a: Seq<char>, b_time: u64, b: Seq<char>)
    ensures
        a_time < b_time ==> key_after(a_time, a, b_time, b),
        a_time > b_time ==> !key_after(a_time, a, b_time, b),
        a_time == b_time ==> key_after(a_time, a, b_time, b) == text_precedes(a, b),
{
}

/// The next page starts at the token that the last one gave; without one it starts at the beginning.
pub proof fn page_starts_at_the_token_of_the_last_one(token: PaginationToken)
    ensures
        start_of(token) is Some <==> token is HasMore,
        token matches PaginationToken::HasMore(text) ==> start_of(token) == Some(text),
{
}

/// An event affects the thread it belongs to, or that of the event it replaces, and no other one. The
/// threads that events affect grow by that of one more event.
pub proof fn event_affects_its_own_thread(
    events: Seq<AffectingEvent>,
    event: AffectingEvent,
    root: Seq<char>,
)
    ensures
        !is_affected(Seq::empty(), root),
        is_affected(events.push(event), root) <==> is_affected(events, root) || (
        event.relation is Some && (((event.relation->0).0 is Thread && (event.relation->0).1@ == root)
            || ((event.relation->0).0 is Replacement && event.replaced_thread_root is Some
            && event.replaced_thread_root->0@ == root))),
{
    let more = events.push(event);
    assert(more[events.len() as int] == event);
    assert forall|i: int| 0 <= i < events.len() implies #[trigger] more[i] == events[i] by {}
    if is_affected(events, root) {
        let i = choose|i: int|
            0 <= i < events.len() && affected_root(#[trigger] events[i]) == Some(root);
        assert(affected_root(more[i]) == Some(root));
    }
    if affected_root(event) == Some(root) {
        assert(affected_root(more[events.len() as int]) == Some(root));
    }
    if is_affected(more, root) && affected_root(event) != Some(root) {
        let i = choose|i: int|
            0 <= i < more.len() && affected_root(#[trigger] more[i]) == Some(root);
        assert(affected_root(events[i]) == Some(root));
    }
}

/// A redaction, and an event that was redacted, hide which threads changed; no other event does.
pub proof fn redactions_hide_what_changed(events: Seq<Event>, event: Event)
    ensures
        !hides_what_changed(Seq::empty()),
        hides_what_changed(events.push(event)) <==> hides_what_changed(events) || event_type_of(
            event.json@,
        ) == Some("m.room.redaction"@) || (event.unsigned is Some
            && event.unsigned->0.redacted_because is Some),
{
    let more = events.push(event);
    assert(more[events.len() as int] == event);
    assert forall|i: int| 0 <= i < events.len() implies #[trigger] more[i] == events[i] by {}
    if hides_what_changed(events) {
        let i = choose|i: int|
            0 <= i < events.len() && needs_full_reconciliation(#[trigger] events[i]);
        assert(needs_full_reconciliation(more[i]));
    }
    if needs_full_reconciliation(event) {
        assert(needs_full_reconciliation(more[events.len() as int]));
    }
    if hides_what_changed(more) && !needs_full_reconciliation(event) {
        let i = choose|i: int|
            0 <= i < more.len() && needs_full_reconciliation(#[trigger] more[i]);
        assert(needs_full_reconciliation(events[i]));
    }
}

/// One event tells of itself whether it is a redaction, or was redacted.
pub proof fn redaction_is_told_by_its_type(
    event: Event,
    event_type: Option<Seq<char>>,
    unsigned: Option<Unsigned>,
)
    ensures
        is_redaction_type(event_type) <==> event_type is Some && event_type->0
            == "m.room.redaction"@,
        is_redaction(event.json@) <==> event_type_of(event.json@) == Some("m.room.redaction"@),
        is_redacted(unsigned) <==> unsigned is Some && unsigned->0.redacted_because is Some,
        needs_full_reconciliation(event) <==> is_redaction(event.json@) || is_redacted(
            event.unsigned,
        ),
{
}

/// The events of a list of changes are those of each change, in order.
pub proof fn changes_bring_their_events_in_order(
    diffs: Seq<VectorDiff<Event>>,
    diff: VectorDiff<Event>,
)
    ensures
        brought_by_all(Seq::empty()).len() == 0,
        brought_by_all(diffs.push(diff)) == brought_by_all(diffs) + diff.brought(),
{
    assert(diffs.push(diff).drop_last() =~= diffs);
}

/// A list in its initial state has no threads, knows of none, and may load.
pub proof fn initial_list_is_empty(list: ThreadListService)
    requires
        list.is_initial(),
    ensures
        list.threads().len() == 0,
        forall|root: Seq<char>| !#[trigger] list.known_proofs().contains_key(root),
        list.next_page() is Start,
        list.pagination() == (ThreadListPaginationState::Idle { end_reached: false }),
{
}

} // verus!
