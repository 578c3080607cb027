//! The event bridge's one decision: what an engine event does to the
//! shared "now playing" title.
//!
//! The running process keeps a background loop that waits for the
//! engine's wakeup signal and drains pending events; for each drained
//! event it calls `apply_event` under the title's own lock. A metadata
//! payload that carries a title overwrites the title; anything else —
//! another event kind, a payload without a title field, a malformed
//! payload — leaves it untouched, because metadata is best-effort and
//! never fatal to playback.

use vstd::prelude::*;

use crate::engine::MpvEvent;

verus! {

/// The track title a metadata payload carries: the string value of the
/// payload's `icy-title` field when the payload is a JSON document with
/// such a field, and nothing otherwise. A function of the payload text
/// alone.
pub uninterp spec fn title_of(payload: Seq<char>) -> Option<Seq<char>>;

/// Relies on `serde_json::from_str::<serde_json::Value>`,
/// `serde_json::Value::get` and `serde_json::Value::as_str`: together
/// they read the `icy-title` string field of a JSON document, and their
/// result depends on the payload text alone.
#[verifier::external_body]
fn extract_title(payload: &str) -> (r: Option<String>)
    ensures
        match r {
            Some(t) => title_of(payload@) == Some(t@),
            None => title_of(payload@) is None,
        },
{
    match serde_json::from_str::<serde_json::Value>(payload) {
        Ok(v) => match v.get("icy-title") {
            Some(field) => field.as_str().map(|t| t.to_string()),
            None => None,
        },
        Err(_) => None,
    }
}

/// What the now-playing title is after one event: a property change whose
/// payload carries a title replaces it; every other event, and every
/// payload without one, keeps the old title.
pub open spec fn spec_apply_event(now: Seq<char>, event: MpvEvent) -> Seq<char> {
    match event {
        MpvEvent::PropertyChange { name, change, reply_userdata } => match title_of(change@) {
            Some(t) => t,
            None => now,
        },
        _ => now,
    }
}

/// Apply one drained engine event to the shared now-playing title.
pub fn apply_event(now_playing: &mut String, event: &MpvEvent)
    ensures
        final(now_playing)@ == spec_apply_event(old(now_playing)@, *event),
{
    match event {
        MpvEvent::PropertyChange { change, .. } => {
            match extract_title(change.as_str()) {
                Some(t) => {
                    *now_playing = t;
                },
                None => {},
            }
        },
        _ => {},
    }
}

} // verus!
