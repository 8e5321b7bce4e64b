use vstd::prelude::*;

use crate::store::{
    classify_kind, clone_note, contains_id, spec_classify_kind, spec_insert_newest_first,
    EventKind, EventStore, StoredNote, TEXT_NOTE_KIND,
};

verus! {

/// One inbound notification from the relay session: either an event, or
/// anything else, which ingestion observes and discards.
#[derive(Debug)]
pub enum RelayNotification {
    /// A delivered event.
    Event(StoredNote),
    /// Any non-event notification.
    Other,
}

/// What ingestion did with one notification.
#[derive(Clone, Copy, Debug, PartialEq, Eq, Structural)]
pub enum IngestOutcome {
    /// A text-note event was committed as a new row.
    Stored,
    /// The event was already stored; nothing was written.
    Duplicate,
    /// The notification was not a text-note event; nothing was written.
    Skipped,
}

/// The store contents after one notification is delivered.
pub open spec fn spec_ingest_step(c: Seq<StoredNote>, n: RelayNotification) -> Seq<StoredNote> {
    match n {
        RelayNotification::Event(e) => {
            if e.kind == TEXT_NOTE_KIND && !contains_id(c, e.id@) {
                spec_insert_newest_first(c, e)
            } else {
                c
            }
        },
        RelayNotification::Other => c,
    }
}

/// The outcome one notification is answered with, against contents `c`.
pub open spec fn spec_ingest_outcome(c: Seq<StoredNote>, n: RelayNotification) -> IngestOutcome {
    match n {
        RelayNotification::Event(e) => {
            if e.kind != TEXT_NOTE_KIND {
                IngestOutcome::Skipped
            } else if contains_id(c, e.id@) {
                IngestOutcome::Duplicate
            } else {
                IngestOutcome::Stored
            }
        },
        RelayNotification::Other => IngestOutcome::Skipped,
    }
}

/// Handles one notification, in arrival order: a text-note event is
/// committed through the store's insert-if-absent; a duplicate delivery
/// writes nothing; every other notification is discarded.
pub fn ingest_notification(store: &mut EventStore, n: RelayNotification) -> (o: IngestOutcome)
    requires
        old(store).wf(),
    ensures
        final(store).wf(),
        final(store).contents() == spec_ingest_step(old(store).contents(), n),
        o == spec_ingest_outcome(old(store).contents(), n),
{
    match n {
        RelayNotification::Event(e) => {
            let kind = classify_kind(e.kind);
            if kind == EventKind::TextNote {
                assert(e.kind == TEXT_NOTE_KIND) by {
                    assert(spec_classify_kind(e.kind) == EventKind::TextNote);
                }
                if store.put_if_absent(e) {
                    IngestOutcome::Stored
                } else {
                    IngestOutcome::Duplicate
                }
            } else {
                IngestOutcome::Skipped
            }
        },
        RelayNotification::Other => IngestOutcome::Skipped,
    }
}

/// The store contents after a finite notification sequence is delivered, in
/// order.
pub open spec fn spec_ingest_all(c: Seq<StoredNote>, ns: Seq<RelayNotification>) -> Seq<
    StoredNote,
>
    decreases ns.len(),
{
    if ns.len() == 0 {
        c
    } else {
        spec_ingest_step(spec_ingest_all(c, ns.drop_last()), ns.last())
    }
}

/// Copies one notification.
pub fn clone_notification(n: &RelayNotification) -> (r: RelayNotification)
    ensures
        r == *n,
{
    match n {
        RelayNotification::Event(e) => RelayNotification::Event(clone_note(e)),
        RelayNotification::Other => RelayNotification::Other,
    }
}

/// Drains a finite notification sequence in arrival order, committing every
/// matching event; one outcome is answered per notification, and no
/// notification stops the loop.
#[verifier::loop_isolation(false)]
pub fn ingest_all(store: &mut EventStore, ns: &Vec<RelayNotification>) -> (outcomes: Vec<
    IngestOutcome,
>)
    requires
        old(store).wf(),
    ensures
        final(store).wf(),
        final(store).contents() == spec_ingest_all(old(store).contents(), ns@),
        outcomes@.len() == ns@.len(),
        forall|t: int|
            0 <= t < ns@.len() ==> (#[trigger] outcomes@[t]) == spec_ingest_outcome(
                spec_ingest_all(old(store).contents(), ns@.take(t)),
                ns@[t],
            ),
{
    let ghost c0 = old(store).contents();
    let mut outcomes: Vec<IngestOutcome> = Vec::new();
    let mut i: usize = 0;
    while i < ns.len()
        invariant
            i <= ns.len(),
            store.wf(),
            store.contents() == spec_ingest_all(c0, ns@.take(i as int)),
            outcomes@.len() == i,
            forall|t: int|
                0 <= t < i ==> (#[trigger] outcomes@[t]) == spec_ingest_outcome(
                    spec_ingest_all(c0, ns@.take(t)),
                    ns@[t],
                ),
        decreases ns.len() - i,
    {
        let n = clone_notification(&ns[i]);
        let o = ingest_notification(store, n);
        outcomes.push(o);
        proof {
            assert(ns@.take(i + 1).drop_last() =~= ns@.take(i as int));
            assert(ns@.take(i + 1).last() == ns@[i as int]);
        }
        i += 1;
    }
    proof {
        assert(ns@.take(ns.len() as int) =~= ns@);
    }
    outcomes
}

/// Law: delivering the same notification twice changes nothing the second
/// time; in particular a repeated text-note event is answered `Duplicate`
/// and leaves exactly the one row its first delivery committed.
pub proof fn lemma_duplicate_delivery_is_noop(c: Seq<StoredNote>, n: RelayNotification)
    ensures
        spec_ingest_step(spec_ingest_step(c, n), n) == spec_ingest_step(c, n),
        n matches RelayNotification::Event(e) && e.kind == TEXT_NOTE_KIND
            ==> spec_ingest_outcome(spec_ingest_step(c, n), n) == IngestOutcome::Duplicate,
{
    match n {
        RelayNotification::Event(e) => {
            if e.kind == TEXT_NOTE_KIND && !contains_id(c, e.id@) {
                lemma_insert_contains(c, e);
            }
        },
        RelayNotification::Other => {},
    }
}

/// A newest-first insertion makes the inserted identifier present.
proof fn lemma_insert_contains(s: Seq<StoredNote>, n: StoredNote)
    ensures
        contains_id(spec_insert_newest_first(s, n), n.id@),
    decreases s.len(),
{
    let r = spec_insert_newest_first(s, n);
    if s.len() == 0 {
        assert(r[0].id@ == n.id@);
    } else if s[0].created_at >= n.created_at {
        lemma_insert_contains(s.skip(1), n);
        let sub = spec_insert_newest_first(s.skip(1), n);
        let w = choose|w: int| 0 <= w < sub.len() && sub[w].id@ == n.id@;
        assert(r[w + 1].id@ == n.id@);
    } else {
        assert(r[0].id@ == n.id@);
    }
}

} // verus!
