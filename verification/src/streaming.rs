//! Topics for streaming audit entries over publish/subscribe.
//!
//! Entries are published to `{prefix}/{source}/{action}` (default prefix
//! `libro`), so that subscribers can filter by source and action with
//! MQTT-style wildcards: `libro/#`, `libro/daimon/#`, `libro/*/agent.start`.
//! The hub itself lives with the application.

use vstd::prelude::*;

use crate::entry::AuditEntry;
use crate::text::{push_str, string_of};

verus! {

/// The topic prefix of a stream created without one.
pub const DEFAULT_TOPIC_PREFIX: &'static str = "libro";

/// The topic an entry is published to under `prefix`.
pub open spec fn topic_spec(prefix: Seq<char>, e: AuditEntry) -> Seq<char> {
    prefix + "/"@ + e.source@ + "/"@ + e.action@
}

/// The topic an entry is published to: `{prefix}/{source}/{action}`.
pub fn topic_for(prefix: &str, entry: &AuditEntry) -> (t: String)
    ensures
        t@ == topic_spec(prefix@, *entry),
{
    let mut t = string_of(prefix);
    push_str(&mut t, "/");
    push_str(&mut t, entry.source.as_str());
    push_str(&mut t, "/");
    push_str(&mut t, entry.action.as_str());
    t
}

} // verus!
