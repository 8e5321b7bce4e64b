use vstd::prelude::*;

use crate::errors::ServiceError;
use crate::store::{matching, records_newest_first, spec_recent, EventStore, NoteRecord,
    TEXT_NOTE_KIND};

verus! {

/// Hard ceiling on how many notes one list request may return; also the
/// default when the caller names no limit.
pub const MAX_LIST_LIMIT: u32 = 10;

/// The limit a list request is served with: the requested value when one was
/// given, else the default, and never above the hard ceiling.
pub open spec fn spec_effective_limit(requested: Option<u32>) -> u32 {
    let asked = match requested {
        Some(l) => l,
        None => MAX_LIST_LIMIT,
    };
    if asked < MAX_LIST_LIMIT {
        asked
    } else {
        MAX_LIST_LIMIT
    }
}

/// Caps a list request's optional limit: the requested value, defaulted to
/// and never above `MAX_LIST_LIMIT`.
pub fn effective_limit(requested: Option<u32>) -> (l: u32)
    ensures
        l == spec_effective_limit(requested),
        l <= MAX_LIST_LIMIT,
{
    let asked: u32 = match requested {
        Some(l) => l,
        None => MAX_LIST_LIMIT,
    };
    if asked < MAX_LIST_LIMIT {
        asked
    } else {
        MAX_LIST_LIMIT
    }
}

/// Validates a publish request's content: a note must be non-empty. The
/// session layer would accept an empty note, so the check sits here, before
/// anything is handed to the transport.
pub fn prepare_note(content: String) -> (r: Result<String, ServiceError>)
    ensures
        content@.len() > 0 ==> (r matches Ok(c) && c@ == content@),
        content@.len() == 0 ==> (r matches Err(e) && e is Validation),
{
    if content.as_str().is_empty() {
        Err(ServiceError::Validation)
    } else {
        Ok(content)
    }
}

/// Serves a list request: the newest stored text-notes, newest first, capped
/// by the caller's limit and the hard ceiling, projected so that neither the
/// event identifier nor the signature is exposed. A limit of zero is served
/// with an empty list, not an error.
pub fn list_recent_notes(store: &EventStore, requested: Option<u32>) -> (r: Vec<NoteRecord>)
    requires
        store.wf(),
    ensures
        r@ == spec_recent(
            store.contents(),
            TEXT_NOTE_KIND,
            spec_effective_limit(requested) as int,
        ),
        r@.len() <= spec_effective_limit(requested),
        r@.len() <= matching(store.contents(), TEXT_NOTE_KIND).len(),
        records_newest_first(r@),
        requested == Some(0u32) ==> r@.len() == 0,
{
    let limit = effective_limit(requested);
    store.query_recent(TEXT_NOTE_KIND, limit as usize)
}

} // verus!
