//! Reading single members out of JSON text.

use ruma::events::{AnySyncTimelineEvent, MessageLikeEventType};
use ruma::serde::Raw;
use vstd::prelude::*;

verus! {

/// The text that a member of a JSON object holds: `None` where the JSON cannot be read, and
/// `Some(None)` where it is no object, lacks the member, or holds something else than text in it.
pub uninterp spec fn text_member(json: Seq<char>, member: Seq<char>) -> Option<Option<Seq<char>>>;

/// Reads a member with `serde_json::from_str`, `serde_json::Value::get` and
/// `serde_json::Value::as_str`. The contract names what these return together; it claims only that
/// the same texts give the same result.
#[verifier::external_body]
pub(crate) fn read_text_member(json: &str, member: &str) -> (r: Option<Option<String>>)
    ensures
        match r {
            None => text_member(json@, member@) is None,
            Some(None) => text_member(json@, member@) == Some(None::<Seq<char>>),
            Some(Some(text)) => text_member(json@, member@) == Some(Some(text@)),
        },
{
    let value = serde_json::from_str::<serde_json::Value>(json).ok()?;
    Some(value.get(member).and_then(|found| found.as_str()).map(|text| text.to_owned()))
}

/// The type of an event: `None` where the event cannot be read, or has no type.
pub uninterp spec fn event_type_of(json: Seq<char>) -> Option<Seq<char>>;

/// Reads the type of an event with `ruma::serde::Raw::get_field` as a
/// `ruma::events::MessageLikeEventType`. The contract names what this returns; it claims only that
/// the same text gives the same result.
#[verifier::external_body]
pub(crate) fn read_event_type(json: &str) -> (r: Option<String>)
    ensures
        match r {
            Some(text) => event_type_of(json@) == Some(text@),
            None => event_type_of(json@) is None,
        },
{
    let raw = Raw::<AnySyncTimelineEvent>::from_json_string(json.to_owned()).ok()?;
    Some(raw.get_field::<MessageLikeEventType>("type").ok()??.to_string())
}

} // verus!
