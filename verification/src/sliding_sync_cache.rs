//! Storing the state of a sliding sync session, and restoring it.

use vstd::prelude::*;
use vstd::string::*;

use crate::text::{opt_text, texts};

verus! {

/// The key prefix of a session. It is used as a storage key: changing it requires migrating data.
pub open spec fn key_prefix(id: Seq<char>, user_id: Seq<char>) -> Seq<char> {
    "sliding_sync_store::"@ + id + "::"@ + user_id
}

/// The key of a session's own record.
pub open spec fn instance_key(storage_key: Seq<char>) -> Seq<char> {
    storage_key + "::instance"@
}

/// The key of a list of a session.
pub open spec fn list_key(storage_key: Seq<char>, list_name: Seq<char>) -> Seq<char> {
    storage_key + "::list::"@ + list_name
}

/// The key prefix of a session.
pub fn format_storage_key_prefix(id: &str, user_id: &str) -> (r: String)
    ensures
        r@ == key_prefix(id@, user_id@),
{
    let mut key = "sliding_sync_store::".to_owned();
    key.append(id);
    key.append("::");
    key.append(user_id);
    key
}

/// The key of a session's own record.
pub fn format_storage_key_for_sliding_sync(storage_key: &str) -> (r: String)
    ensures
        r@ == instance_key(storage_key@),
{
    let mut key = storage_key.to_owned();
    key.append("::instance");
    key
}

/// The key of a list of a session.
pub fn format_storage_key_for_sliding_sync_list(storage_key: &str, list_name: &str) -> (r: String)
    ensures
        r@ == list_key(storage_key@, list_name@),
{
    let mut key = storage_key.to_owned();
    key.append("::list::");
    key.append(list_name);
    key
}

/// Two lists of a session have different keys, and no list has the key of the session's own record.
pub proof fn storage_keys_are_distinct(
    storage_key: Seq<char>,
    list_name: Seq<char>,
    other_name: Seq<char>,
)
    ensures
        list_key(storage_key, list_name) != instance_key(storage_key),
        list_name != other_name ==> list_key(storage_key, list_name) != list_key(
            storage_key,
            other_name,
        ),
{
    reveal_strlit("::instance");
    reveal_strlit("::list::");
    let n = storage_key.len() as int;
    assert(instance_key(storage_key)[n + 2] == 'i');
    assert(list_key(storage_key, list_name)[n + 2] == 'l');
    let one = list_key(storage_key, list_name);
    let other = list_key(storage_key, other_name);
    assert(one.skip(n + 8) =~= list_name);
    assert(other.skip(n + 8) =~= other_name);
}

/// How a to-device token looks.
#[derive(Clone, Copy, Debug, PartialEq, Eq, Structural)]
pub enum ToDeviceTokenFormat {
    /// There is none.
    Absent,
    /// It belongs to sliding sync.
    Sliding,
    /// It belongs to the older sync.
    Legacy,
}

/// Whether a token belongs to sliding sync: it is a number in ASCII digits.
pub open spec fn is_sliding_token(token: Seq<char>) -> bool {
    &&& token.len() > 0
    &&& forall|i: int| 0 <= i < token.len() ==> '0' <= #[trigger] token[i] && token[i] <= '9'
}

/// Tells whether a token belongs to sliding sync.
fn has_sliding_format(token: &str) -> (r: bool)
    ensures
        r == is_sliding_token(token@),
{
    let mut digits_only = true;
    let mut empty = true;
    for c in chars: token.chars()
        invariant
            chars.seq() == token@,
            empty == (chars.index() == 0),
            digits_only == (forall|i: int|
                0 <= i < chars.index() ==> '0' <= #[trigger] token@[i] && token@[i] <= '9'),
    {
        assert(token@[chars.index() as int] == c);
        if !(c >= '0' && c <= '9') {
            digits_only = false;
        }
        empty = false;
    }
    digits_only && !empty
}

/// Keeps a to-device token that belongs to sliding sync, and tells how the token looks.
pub fn classify_to_device_token(token: Option<String>) -> (r: (
    Option<String>,
    ToDeviceTokenFormat,
))
    ensures
        match token {
            None => r.0 is None && r.1 == ToDeviceTokenFormat::Absent,
            Some(text) => if is_sliding_token(text@) {
                r == (Some(text), ToDeviceTokenFormat::Sliding)
            } else {
                r.0 is None && r.1 == ToDeviceTokenFormat::Legacy
            },
        },
{
    match token {
        None => (None, ToDeviceTokenFormat::Absent),
        Some(token) => if has_sliding_format(token.as_str()) {
            (Some(token), ToDeviceTokenFormat::Sliding)
        } else {
            (None, ToDeviceTokenFormat::Legacy)
        },
    }
}

/// What a room subscription asks of the server.
#[derive(Debug)]
pub struct RoomSubscription {
    /// State events, each by type and key.
    pub required_state: Vec<(String, String)>,
    /// The number of timeline events.
    pub timeline_limit: u64,
}

/// The position of a session as it is stored, with the rooms that it covers.
#[derive(Debug)]
pub struct FrozenSlidingSyncPos {
    /// The position.
    pub pos: Option<String>,
    /// The room subscriptions that the server holds for this position, by room.
    pub room_subscriptions: Vec<(String, RoomSubscription)>,
}

/// Whether `frozen` is the record of a position and the rooms that it covers.
pub open spec fn is_record_of(
    frozen: FrozenSlidingSyncPos,
    pos: Option<String>,
    room_subscriptions: Vec<(String, RoomSubscription)>,
) -> bool {
    &&& frozen.pos == pos
    &&& pos is Some ==> frozen.room_subscriptions == room_subscriptions
    &&& pos is None ==> frozen.room_subscriptions@.len() == 0
}

/// The record to store for a session. Room subscriptions are scoped to a position, so a record
/// without a position carries none.
pub fn freeze_position(
    pos: Option<String>,
    room_subscriptions: Vec<(String, RoomSubscription)>,
) -> (r: FrozenSlidingSyncPos)
    ensures
        is_record_of(r, pos, room_subscriptions),
{
    if pos.is_some() {
        FrozenSlidingSyncPos { pos, room_subscriptions }
    } else {
        FrozenSlidingSyncPos { pos, room_subscriptions: Vec::new() }
    }
}

/// The session's own record to write, with its key: `None` for a client without a crypto store.
pub fn store_sliding_sync_state(
    storage_key: &str,
    has_crypto_store: bool,
    pos: Option<String>,
    room_subscriptions: Vec<(String, RoomSubscription)>,
) -> (r: Option<(String, FrozenSlidingSyncPos)>)
    ensures
        r is Some <==> has_crypto_store,
        r matches Some(entry) ==> entry.0@ == instance_key(storage_key@) && is_record_of(
            entry.1,
            pos,
            room_subscriptions,
        ),
{
    if !has_crypto_store {
        return None;
    }
    let key = format_storage_key_for_sliding_sync(storage_key);
    Some((key, freeze_position(pos, room_subscriptions)))
}

/// Whether a list is kept in the cache.
#[derive(Clone, Copy, Debug, PartialEq, Eq, Structural)]
pub enum SlidingSyncListCachePolicy {
    /// It is.
    Enabled,
    /// It is not.
    Disabled,
}

/// A list as it is about to be stored.
#[derive(Debug)]
pub struct ListToStore<E> {
    /// The name of the list.
    pub name: String,
    /// Whether it is kept in the cache.
    pub cache_policy: SlidingSyncListCachePolicy,
    /// Its bytes, or why it has none.
    pub frozen: Result<Vec<u8>, E>,
}

/// The lists that are kept in the cache.
pub open spec fn enabled_lists<E>(lists: Seq<ListToStore<E>>) -> Seq<ListToStore<E>> {
    lists.filter(|list: ListToStore<E>| list.cache_policy == SlidingSyncListCachePolicy::Enabled)
}

/// Whether the entries are those of the lists: in order, each under the key of its list.
pub open spec fn are_entries_of<E>(
    storage_key: Seq<char>,
    entries: Seq<(String, Vec<u8>)>,
    lists: Seq<ListToStore<E>>,
) -> bool {
    &&& entries.len() == lists.len()
    &&& forall|i: int|
        0 <= i < lists.len() ==> (#[trigger] entries[i]).0@ == list_key(
            storage_key,
            lists[i].name@,
        ) && lists[i].frozen == Ok::<Vec<u8>, E>(entries[i].1)
}

/// The entries to write for the lists of a session: one for each list that is kept in the cache.
/// The first of these that has no bytes fails the whole.
pub fn entries_for_lists<E>(storage_key: &str, lists: Vec<ListToStore<E>>) -> (r: Result<
    Vec<(String, Vec<u8>)>,
    E,
>)
    ensures
        match r {
            Ok(entries) => are_entries_of(storage_key@, entries@, enabled_lists(lists@)),
            Err(error) => exists|i: int|
                {
                    &&& 0 <= i < enabled_lists(lists@).len()
                    &&& (#[trigger] enabled_lists(lists@)[i]).frozen == Err::<Vec<u8>, E>(error)
                    &&& forall|j: int|
                        0 <= j < i ==> (#[trigger] enabled_lists(lists@)[j]).frozen is Ok
                },
        },
{
    let mut entries: Vec<(String, Vec<u8>)> = Vec::new();
    let ghost enabled = |list: ListToStore<E>|
        list.cache_policy == SlidingSyncListCachePolicy::Enabled;
    let ghost all = lists@;
    proof {
        reveal(Seq::filter);
        assert(all.take(0).filter(enabled) =~= Seq::empty());
    }
    for list in it: lists
        invariant
            it.seq() == all,
            enabled == (|list: ListToStore<E>|
                list.cache_policy == SlidingSyncListCachePolicy::Enabled),
            are_entries_of(storage_key@, entries@, all.take(it.index() as int).filter(enabled)),
    {
        let ghost seen = all.take(it.index() as int).filter(enabled);
        proof {
            reveal(Seq::filter);
            assert(all.take(it.index() + 1).drop_last() =~= all.take(it.index() as int));
            assert(all.take(it.index() + 1).last() == list);
        }
        if let SlidingSyncListCachePolicy::Enabled = list.cache_policy {
            let key = format_storage_key_for_sliding_sync_list(storage_key, list.name.as_str());
            match list.frozen {
                Ok(bytes) => entries.push((key, bytes)),
                Err(error) => {
                    proof {
                        let upto = all.take(it.index() + 1);
                        assert(all =~= upto + all.skip(it.index() + 1));
                        Seq::filter_distributes_over_add(
                            upto,
                            all.skip(it.index() + 1),
                            enabled,
                        );
                        let found = enabled_lists(all)[seen.len() as int];
                        assert(found == list);
                        assert forall|j: int| 0 <= j < seen.len() implies (
                        #[trigger] enabled_lists(all)[j]).frozen is Ok by {
                            assert(enabled_lists(all)[j] == seen[j]);
                            assert(seen[j].frozen == Ok::<Vec<u8>, E>(entries@[j].1));
                        }
                    }
                    return Err(error);
                },
            }
        }
    }
    assert(all.take(all.len() as int) =~= all);
    Ok(entries)
}

/// What was found under the key of a list.
#[derive(Debug)]
pub enum StoredList<T> {
    /// Nothing.
    Missing,
    /// Bytes that are no list any more.
    Obsolete,
    /// A list.
    Found(T),
}

/// Restores a list. The second part is the key to remove: that of an entry which is obsolete.
pub fn restore_sliding_sync_list<T>(
    storage_key: &str,
    list_name: &str,
    stored: StoredList<T>,
) -> (r: (Option<T>, Option<String>))
    ensures
        match stored {
            StoredList::Missing => r.0 is None && r.1 is None,
            StoredList::Obsolete => r.0 is None && opt_text(r.1) == Some(
                list_key(storage_key@, list_name@),
            ),
            StoredList::Found(list) => r.0 == Some(list) && r.1 is None,
        },
{
    match stored {
        StoredList::Missing => (None, None),
        StoredList::Obsolete => (
            None,
            Some(format_storage_key_for_sliding_sync_list(storage_key, list_name)),
        ),
        StoredList::Found(list) => (Some(list), None),
    }
}

/// The state that was restored for a session.
#[derive(Debug)]
pub struct RestoredFields {
    /// The to-device token.
    pub to_device_token: Option<String>,
    /// The position.
    pub pos: Option<String>,
    /// The room subscriptions that the position covers, by room.
    pub room_subscriptions: Vec<(String, RoomSubscription)>,
}

impl Default for RestoredFields {
    fn default() -> (r: Self)
        ensures
            r.to_device_token is None,
            r.pos is None,
            r.room_subscriptions@.len() == 0,
    {
        RestoredFields { to_device_token: None, pos: None, room_subscriptions: Vec::new() }
    }
}

/// What was found under the key of a session's own record.
#[derive(Debug)]
pub enum StoredRecord {
    /// Nothing.
    Missing,
    /// Bytes that are no record any more.
    Obsolete,
    /// A record.
    Found(FrozenSlidingSyncPos),
}

/// What the crypto store holds for a session.
#[derive(Debug)]
pub struct StoredSession {
    /// The to-device token.
    pub next_batch_token: Option<String>,
    /// The session's own record.
    pub record: StoredRecord,
}

/// Whether the fields are what a session restores to.
pub open spec fn are_restored_from(r: RestoredFields, session: StoredSession) -> bool {
    &&& r.to_device_token == match session.next_batch_token {
        Some(token) => if is_sliding_token(token@) {
            Some(token)
        } else {
            None
        },
        None => None,
    }
    &&& match session.record {
        StoredRecord::Found(frozen) => {
            &&& r.pos == frozen.pos
            &&& frozen.pos is Some ==> r.room_subscriptions == frozen.room_subscriptions
            &&& frozen.pos is None ==> r.room_subscriptions@.len() == 0
        },
        _ => r.pos is None && r.room_subscriptions@.len() == 0,
    }
}

/// All keys of a session's cache: that of its own record, and those of its lists.
pub open spec fn cache_keys(storage_key: Seq<char>, list_names: Seq<Seq<char>>) -> Seq<Seq<char>> {
    seq![instance_key(storage_key)] + list_names.map_values(
        |name: Seq<char>| list_key(storage_key, name),
    )
}

/// All keys of a session's cache.
pub fn format_all_storage_keys(storage_key: &str, list_names: &[String]) -> (r: Vec<String>)
    ensures
        texts(r@) == cache_keys(storage_key@, texts(list_names@)),
{
    let mut keys: Vec<String> = Vec::new();
    keys.push(format_storage_key_for_sliding_sync(storage_key));
    let ghost names = texts(list_names@);
    assert(texts(keys@) =~= cache_keys(storage_key@, names.take(0)));
    let mut i: usize = 0;
    while i < list_names.len()
        invariant
            i <= list_names@.len(),
            names == texts(list_names@),
            texts(keys@) == cache_keys(storage_key@, names.take(i as int)),
        decreases list_names@.len() - i,
    {
        let ghost earlier = keys@;
        let key = format_storage_key_for_sliding_sync_list(storage_key, list_names[i].as_str());
        keys.push(key);
        proof {
            assert(names.take(i + 1) =~= names.take(i as int).push(names[i as int]));
            assert(texts(keys@) =~= texts(earlier).push(key@));
            assert(texts(keys@) =~= cache_keys(storage_key@, names.take(i + 1)));
        }
        i += 1;
    }
    assert(names.take(i as int) =~= names);
    keys
}

/// Restores the state of a session with the given lists; `None` stands for a client without a crypto
/// store. Room subscriptions without a position are not restored. The second part holds the keys to
/// remove: where the session's own record is obsolete, those of the whole cache.
pub fn restore_sliding_sync_state(
    storage_key: &str,
    list_names: &[String],
    stored: Option<StoredSession>,
) -> (r: (RestoredFields, Vec<String>))
    ensures
        match stored {
            None => {
                &&& r.0.to_device_token is None
                &&& r.0.pos is None
                &&& r.0.room_subscriptions@.len() == 0
            },
            Some(session) => are_restored_from(r.0, session),
        },
        texts(r.1@) == keys_to_remove(storage_key@, texts(list_names@), stored),
{
    let mut restored_fields = RestoredFields::default();
    let mut obsolete_keys: Vec<String> = Vec::new();
    if let Some(session) = stored {
        let (to_device_token, _) = classify_to_device_token(session.next_batch_token);
        restored_fields.to_device_token = to_device_token;
        match session.record {
            StoredRecord::Missing => {},
            StoredRecord::Obsolete => {
                obsolete_keys = format_all_storage_keys(storage_key, list_names);
            },
            StoredRecord::Found(frozen_pos) => {
                restored_fields.pos = frozen_pos.pos;
                if restored_fields.pos.is_some() {
                    restored_fields.room_subscriptions = frozen_pos.room_subscriptions;
                }
            },
        }
    }
    assert(obsolete_keys@.len() == 0 ==> texts(obsolete_keys@) =~= Seq::<Seq<char>>::empty());
    (restored_fields, obsolete_keys)
}

/// The keys to remove after a restore: all of the session's cache where its own record is obsolete,
/// and none otherwise.
pub open spec fn keys_to_remove(
    storage_key: Seq<char>,
    list_names: Seq<Seq<char>>,
    stored: Option<StoredSession>,
) -> Seq<Seq<char>> {
    match stored {
        Some(session) => if session.record is Obsolete {
            cache_keys(storage_key, list_names)
        } else {
            Seq::empty()
        },
        None => Seq::empty(),
    }
}

/// An obsolete record takes the whole cache with it: nothing of it is restored, and the keys of the
/// record and of every list are removed.
pub proof fn obsolete_record_removes_the_whole_cache(
    storage_key: Seq<char>,
    list_names: Seq<Seq<char>>,
    session: StoredSession,
    restored: RestoredFields,
)
    requires
        session.record is Obsolete,
        are_restored_from(restored, session),
    ensures
        restored.pos is None,
        restored.room_subscriptions@.len() == 0,
        keys_to_remove(storage_key, list_names, Some(session)).contains(instance_key(storage_key)),
        forall|i: int|
            0 <= i < list_names.len() ==> keys_to_remove(
                storage_key,
                list_names,
                Some(session),
            ).contains(list_key(storage_key, #[trigger] list_names[i])),
{
    let keys = cache_keys(storage_key, list_names);
    assert(keys[0] == instance_key(storage_key));
    assert forall|i: int| 0 <= i < list_names.len() implies keys.contains(
        list_key(storage_key, #[trigger] list_names[i]),
    ) by {
        assert(keys[i + 1] == list_key(storage_key, list_names[i]));
    }
}

/// A stored session restores to the position it was stored with, and to the rooms that it covered.
/// Without a position it restores to no room, whatever was subscribed.
pub proof fn restoring_gives_back_what_was_stored(
    pos: Option<String>,
    room_subscriptions: Vec<(String, RoomSubscription)>,
    frozen: FrozenSlidingSyncPos,
    next_batch_token: Option<String>,
    restored: RestoredFields,
)
    requires
        is_record_of(frozen, pos, room_subscriptions),
        are_restored_from(
            restored,
            StoredSession { next_batch_token, record: StoredRecord::Found(frozen) },
        ),
    ensures
        restored.pos == pos,
        pos is Some ==> restored.room_subscriptions == room_subscriptions,
        pos is None ==> restored.room_subscriptions@.len() == 0,
{
}

/// No restored session has rooms without a position, or a to-device token of the older sync.
pub proof fn restored_session_is_sound(restored: RestoredFields, session: StoredSession)
    requires
        are_restored_from(restored, session),
    ensures
        restored.pos is None ==> restored.room_subscriptions@.len() == 0,
        restored.to_device_token matches Some(token) ==> is_sliding_token(token@),
{
}

/// A token belongs to sliding sync where it has a character and each of them is one of the ten decimal
/// digits of ASCII.
pub proof fn sliding_token_is_a_row_of_digits(token: Seq<char>, next: char)
    ensures
        !is_sliding_token(Seq::empty()),
        is_sliding_token(token.push(next)) <==> (token.len() == 0 || is_sliding_token(token)) && 48
            <= next as int <= 57,
{
    let more = token.push(next);
    assert(more[token.len() as int] == next);
    assert forall|i: int| 0 <= i < token.len() implies #[trigger] more[i] == token[i] by {}
    if is_sliding_token(more) {
        assert forall|i: int| 0 <= i < token.len() implies '0' <= #[trigger] token[i] && token[i]
            <= '9' by {
            assert(more[i] == token[i]);
        }
    }
}

/// All keys of a session start with its prefix, and end with what they are the keys of.
pub proof fn keys_start_with_the_prefix_of_their_session(
    id: Seq<char>,
    user_id: Seq<char>,
    storage_key: Seq<char>,
    list_name: Seq<char>,
)
    ensures
        key_prefix(id, user_id).len() == id.len() + user_id.len() + 22,
        key_prefix(id, user_id).take(20) == "sliding_sync_store::"@,
        key_prefix(id, user_id).subrange(20, 20 + id.len() as int) == id,
        key_prefix(id, user_id).subrange(20 + id.len() as int, 22 + id.len() as int) == "::"@,
        key_prefix(id, user_id).skip(22 + id.len() as int) == user_id,
        instance_key(storage_key).len() == storage_key.len() + 10,
        instance_key(storage_key).take(storage_key.len() as int) == storage_key,
        instance_key(storage_key).skip(storage_key.len() as int) == "::instance"@,
        list_key(storage_key, list_name).len() == storage_key.len() + list_name.len() + 8,
        list_key(storage_key, list_name).take(storage_key.len() as int) == storage_key,
        list_key(storage_key, list_name).subrange(
            storage_key.len() as int,
            storage_key.len() as int + 8,
        ) == "::list::"@,
        list_key(storage_key, list_name).skip(storage_key.len() as int + 8) == list_name,
{
    reveal_strlit("sliding_sync_store::");
    reveal_strlit("::");
    reveal_strlit("::instance");
    reveal_strlit("::list::");
    assert(key_prefix(id, user_id).take(20) =~= "sliding_sync_store::"@);
    assert(key_prefix(id, user_id).subrange(20 + id.len() as int, 22 + id.len() as int)
        =~= "::"@);
    assert(instance_key(storage_key).skip(storage_key.len() as int) =~= "::instance"@);
    assert(list_key(storage_key, list_name).subrange(
        storage_key.len() as int,
        storage_key.len() as int + 8,
    ) =~= "::list::"@);
    assert(key_prefix(id, user_id).subrange(20, 20 + id.len() as int) =~= id);
    assert(key_prefix(id, user_id).skip(22 + id.len() as int) =~= user_id);
    assert(instance_key(storage_key).take(storage_key.len() as int) =~= storage_key);
    assert(list_key(storage_key, list_name).take(storage_key.len() as int) =~= storage_key);
    assert(list_key(storage_key, list_name).skip(storage_key.len() as int + 8) =~= list_name);
}

/// The record of a session holds its position, and the rooms that this covers; without a position it
/// holds no room.
pub proof fn record_holds_the_position_and_its_rooms(
    frozen: FrozenSlidingSyncPos,
    pos: Option<String>,
    room_subscriptions: Vec<(String, RoomSubscription)>,
)
    requires
        is_record_of(frozen, pos, room_subscriptions),
    ensures
        frozen.pos == pos,
        pos is Some ==> frozen.room_subscriptions == room_subscriptions,
        pos is None ==> frozen.room_subscriptions@.len() == 0,
{
}

/// Of the lists of a session those are stored that are kept in the cache, in their order, and no other
/// one.
pub proof fn lists_kept_in_the_cache_are_stored_in_order<E>(
    lists: Seq<ListToStore<E>>,
    list: ListToStore<E>,
)
    ensures
        enabled_lists(Seq::<ListToStore<E>>::empty()).len() == 0,
        list.cache_policy is Enabled ==> enabled_lists(lists.push(list)) == enabled_lists(
            lists,
        ).push(list),
        list.cache_policy is Disabled ==> enabled_lists(lists.push(list)) == enabled_lists(lists),
{
    reveal(Seq::filter);
    assert(lists.push(list).drop_last() =~= lists);
    assert(lists.push(list).last() == list);
}

/// Each list is stored with its own bytes, under its own key.
pub proof fn each_list_is_stored_under_its_key<E>(
    storage_key: Seq<char>,
    entries: Seq<(String, Vec<u8>)>,
    lists: Seq<ListToStore<E>>,
)
    ensures
        are_entries_of(storage_key, entries, lists) <==> {
            &&& entries.len() == lists.len()
            &&& forall|i: int|
                0 <= i < lists.len() ==> {
                    &&& (#[trigger] entries[i]).0@ == list_key(storage_key, lists[i].name@)
                    &&& lists[i].frozen is Ok
                    &&& lists[i].frozen->Ok_0 == entries[i].1
                }
        },
{
    if are_entries_of(storage_key, entries, lists) {
        assert forall|i: int| 0 <= i < lists.len() implies {
            &&& (#[trigger] entries[i]).0@ == list_key(storage_key, lists[i].name@)
            &&& lists[i].frozen is Ok
            &&& lists[i].frozen->Ok_0 == entries[i].1
        } by {}
    }
}

/// A session restores its to-device token exactly where this belongs to sliding sync. It restores the
/// position of its record, and its rooms only with a position.
pub proof fn session_restores_what_is_valid(restored: RestoredFields, session: StoredSession)
    requires
        are_restored_from(restored, session),
    ensures
        restored.to_device_token is Some <==> session.next_batch_token is Some && is_sliding_token(
            session.next_batch_token->0@,
        ),
        restored.to_device_token is Some ==> restored.to_device_token == session.next_batch_token,
        session.record matches StoredRecord::Found(frozen) ==> {
            &&& restored.pos == frozen.pos
            &&& frozen.pos is Some ==> restored.room_subscriptions == frozen.room_subscriptions
            &&& frozen.pos is None ==> restored.room_subscriptions@.len() == 0
        },
        session.record !is Found ==> restored.pos is None && restored.room_subscriptions@.len()
            == 0,
{
}

/// The keys of a session's cache are that of its record and then that of each list, in order. They are
/// all removed where the record is obsolete, and otherwise none is.
pub proof fn keys_are_removed_only_with_an_obsolete_record(
    storage_key: Seq<char>,
    list_names: Seq<Seq<char>>,
    stored: Option<StoredSession>,
)
    ensures
        cache_keys(storage_key, list_names).len() == list_names.len() + 1,
        cache_keys(storage_key, list_names)[0] == instance_key(storage_key),
        forall|i: int|
            0 <= i < list_names.len() ==> cache_keys(storage_key, list_names)[i + 1] == list_key(
                storage_key,
                #[trigger] list_names[i],
            ),
        stored is Some && stored->0.record is Obsolete ==> keys_to_remove(
            storage_key,
            list_names,
            stored,
        ) == cache_keys(storage_key, list_names),
        stored is None || stored->0.record !is Obsolete ==> keys_to_remove(
            storage_key,
            list_names,
            stored,
        ).len() == 0,
{
}

} // verus!
