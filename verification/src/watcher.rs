//! The watcher's decisions: which filesystem events are worth a rebuild,
//! and the message each one is reported with. The debounced notification
//! stream itself comes from outside the model; this module only maps each
//! settled event to what the orchestrator is told.

use crate::strutil::concat2;
use vstd::prelude::*;

verus! {

/// One settled filesystem change, as the debounced watcher reports it.
#[derive(Debug, Clone, PartialEq)]
pub enum WatchEvent {
    Created,
    Updated,
    Removed,
    Renamed(String),
    Other,
}

/// The message a change is reported with: creations, updates and removals
/// each have their word, a rename names the new path, and anything else
/// (such as a pre-notice of a write) is not reported at all.
pub fn notify_message(event: &WatchEvent) -> (r: Option<String>)
    ensures
        (match event {
            WatchEvent::Created => r matches Some(m) && m@ == "created"@,
            WatchEvent::Updated => r matches Some(m) && m@ == "updated"@,
            WatchEvent::Removed => r matches Some(m) && m@ == "deleted"@,
            WatchEvent::Renamed(new) => r matches Some(m) && m@ == "renamed to "@ + new@,
            WatchEvent::Other => r is None,
        }),
{
    match event {
        WatchEvent::Created => Some("created".to_owned()),
        WatchEvent::Updated => Some("updated".to_owned()),
        WatchEvent::Removed => Some("deleted".to_owned()),
        WatchEvent::Renamed(new) => Some(concat2("renamed to ", new.as_str())),
        WatchEvent::Other => None,
    }
}

} // verus!
