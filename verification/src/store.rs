use vstd::prelude::*;

verus! {

/// Wire code of the text-note event kind on the relay network.
pub const TEXT_NOTE_KIND: u16 = 1;

/// Wire code of the metadata event kind on the relay network.
pub const METADATA_KIND: u16 = 0;

/// The enumerated subset of event kinds this system distinguishes; every
/// other code is carried as `Other` and ignored by ingestion.
#[derive(Clone, Copy, Debug, PartialEq, Eq, Structural)]
pub enum EventKind {
    /// A short free-text note.
    TextNote,
    /// A profile-metadata record.
    Metadata,
    /// Any kind this system does not interpret.
    Other,
}

/// The tagged variant a wire kind code maps to.
pub open spec fn spec_classify_kind(code: u16) -> EventKind {
    if code == TEXT_NOTE_KIND {
        EventKind::TextNote
    } else if code == METADATA_KIND {
        EventKind::Metadata
    } else {
        EventKind::Other
    }
}

/// Maps a wire kind code to the enumerated subset of interest.
pub fn classify_kind(code: u16) -> (k: EventKind)
    ensures
        k == spec_classify_kind(code),
{
    if code == TEXT_NOTE_KIND {
        EventKind::TextNote
    } else if code == METADATA_KIND {
        EventKind::Metadata
    } else {
        EventKind::Other
    }
}

/// An immutable record received from the relay network, modelled by the
/// fields this system reads. The identifier is content-addressed and unique
/// per event; the signature binding the fields is checked by the transport
/// and is not carried here.
#[derive(Debug)]
pub struct StoredNote {
    /// Content-addressed unique identifier, as hex text.
    pub id: String,
    /// Author public identifier, in its displayable encoding.
    pub author: String,
    /// Wire code of the event kind.
    pub kind: u16,
    /// Creation timestamp, in seconds.
    pub created_at: u64,
    /// Free-text content.
    pub content: String,
}

/// The projection of a stored note handed to list callers: the identifier
/// and the signature are not exposed.
#[derive(Debug)]
pub struct NoteRecord {
    /// Author public identifier, in its displayable encoding.
    pub author: String,
    /// Free-text content.
    pub content: String,
    /// Creation timestamp, in seconds.
    pub created_at: u64,
}

/// What a list caller sees of one stored note.
pub open spec fn spec_project(n: StoredNote) -> NoteRecord {
    NoteRecord { author: n.author, content: n.content, created_at: n.created_at }
}

/// Copies one stored note.
pub fn clone_note(n: &StoredNote) -> (r: StoredNote)
    ensures
        r == *n,
{
    StoredNote {
        id: n.id.clone(),
        author: n.author.clone(),
        kind: n.kind,
        created_at: n.created_at,
        content: n.content.clone(),
    }
}

/// Projects one stored note for a list caller.
pub fn project_note(n: &StoredNote) -> (r: NoteRecord)
    ensures
        r == spec_project(*n),
{
    NoteRecord { author: n.author.clone(), content: n.content.clone(), created_at: n.created_at }
}

/// Whether some note of `s` carries the identifier `id`.
pub open spec fn contains_id(s: Seq<StoredNote>, id: Seq<char>) -> bool {
    exists|i: int| 0 <= i < s.len() && (#[trigger] s[i].id@) == id
}

/// No two notes of `s` share an identifier.
pub open spec fn unique_ids(s: Seq<StoredNote>) -> bool {
    forall|i: int, j: int|
        #![trigger s[i].id@, s[j].id@]
        0 <= i < j < s.len() ==> s[i].id@ != s[j].id@
}

/// The notes of `s` run from newest to oldest.
pub open spec fn sorted_newest_first(s: Seq<StoredNote>) -> bool {
    forall|i: int, j: int|
        #![trigger s[i].created_at, s[j].created_at]
        0 <= i <= j < s.len() ==> s[i].created_at >= s[j].created_at
}

/// The records of `s` run from newest to oldest.
pub open spec fn records_newest_first(s: Seq<NoteRecord>) -> bool {
    forall|i: int, j: int|
        #![trigger s[i].created_at, s[j].created_at]
        0 <= i <= j < s.len() ==> s[i].created_at >= s[j].created_at
}

/// Where a fresh note stands in a newest-first sequence: after every note at
/// least as new, before the first strictly older one.
pub open spec fn spec_insert_newest_first(s: Seq<StoredNote>, n: StoredNote) -> Seq<StoredNote>
    decreases s.len(),
{
    if s.len() == 0 {
        seq![n]
    } else if s[0].created_at >= n.created_at {
        seq![s[0]] + spec_insert_newest_first(s.skip(1), n)
    } else {
        seq![n] + s
    }
}

/// The event store of the bridge: insert-if-absent keyed by the
/// content-addressed identifier, with newest-first limited queries and
/// counting. It carries the durable store's contract, holding the rows in
/// memory for the process lifetime, and tolerates one writer (the
/// ingestion loop) and readers (the query service) taking turns on a
/// shared handle.
pub struct EventStore {
    notes: Vec<StoredNote>,
}

impl EventStore {
    /// The stored notes, newest first.
    pub closed spec fn contents(self) -> Seq<StoredNote> {
        self.notes@
    }

    /// Well-formed: identifiers are unique and the order is newest-first.
    pub open spec fn wf(self) -> bool {
        unique_ids(self.contents()) && sorted_newest_first(self.contents())
    }

    /// Whether an event with identifier `id` is already stored.
    pub open spec fn has_id(self, id: Seq<char>) -> bool {
        contains_id(self.contents(), id)
    }

    /// An empty store.
    pub fn new() -> (s: Self)
        ensures
            s.wf(),
            s.contents() == Seq::<StoredNote>::empty(),
    {
        EventStore { notes: Vec::new() }
    }

    /// Number of stored events; used for the startup diagnostic.
    pub fn count(&self) -> (c: usize)
        ensures
            c == self.contents().len(),
    {
        self.notes.len()
    }

    /// Commits `note` unless an event with the same identifier is already
    /// stored; returns whether a new row was written. Concurrent duplicate
    /// deliveries are settled here, by the identifier, not by the caller.
    #[verifier::loop_isolation(false)]
    pub fn put_if_absent(&mut self, note: StoredNote) -> (inserted: bool)
        requires
            old(self).wf(),
        ensures
            final(self).wf(),
            inserted == !old(self).has_id(note.id@),
            inserted ==> final(self).contents() == spec_insert_newest_first(
                old(self).contents(),
                note,
            ),
            inserted ==> final(self).contents().len() == old(self).contents().len() + 1,
            !inserted ==> *final(self) == *old(self),
            final(self).has_id(note.id@),
    {
        let ghost orig = self.notes@;
        let mut i: usize = 0;
        while i < self.notes.len()
            invariant
                i <= self.notes.len(),
                *self == *old(self),
                self.notes@ == orig,
                forall|j: int| 0 <= j < i ==> (#[trigger] orig[j].id@) != note.id@,
            decreases self.notes.len() - i,
        {
            if self.notes[i].id == note.id {
                assert(contains_id(orig, note.id@));
                return false;
            }
            i += 1;
        }
        assert(!contains_id(orig, note.id@));

        let mut idx: usize = 0;
        while idx < self.notes.len() && self.notes[idx].created_at >= note.created_at
            invariant
                idx <= self.notes.len(),
                *self == *old(self),
                self.notes@ == orig,
                forall|j: int| 0 <= j < idx ==> (#[trigger] orig[j].created_at) >= note.created_at,
            decreases self.notes.len() - idx,
        {
            idx += 1;
        }
        proof {
            lemma_insert_position(orig, note, idx as int);
            lemma_insert_keeps_wf(orig, note, idx as int);
        }
        let ghost gnote = note;
        self.notes.insert(idx, note);
        assert(self.notes@[idx as int] == gnote);
        true
    }

    /// Number of stored events of kind `k`.
    #[verifier::loop_isolation(false)]
    pub fn count_kind(&self, k: u16) -> (c: usize)
        ensures
            c == matching(self.contents(), k).len(),
    {
        let mut c: usize = 0;
        let mut i: usize = 0;
        while i < self.notes.len()
            invariant
                i <= self.notes.len(),
                c <= i,
                c == matching(self.notes@.take(i as int), k).len(),
            decreases self.notes.len() - i,
        {
            proof {
                lemma_matching_take_step(self.notes@, k, i as int);
            }
            if self.notes[i].kind == k {
                c += 1;
            }
            i += 1;
        }
        proof {
            assert(self.notes@.take(self.notes.len() as int) =~= self.notes@);
        }
        c
    }

    /// The at most `limit` newest stored notes of kind `k`, newest first,
    /// projected for callers.
    #[verifier::loop_isolation(false)]
    pub fn query_recent(&self, k: u16, limit: usize) -> (r: Vec<NoteRecord>)
        requires
            self.wf(),
        ensures
            r@ == spec_recent(self.contents(), k, limit as int),
            r@.len() <= limit,
            r@.len() <= matching(self.contents(), k).len(),
            records_newest_first(r@),
    {
        let ghost s = self.notes@;
        let mut out: Vec<NoteRecord> = Vec::new();
        let mut i: usize = 0;
        while i < self.notes.len() && out.len() < limit
            invariant
                i <= self.notes.len(),
                out@ == project_all(matching(s.take(i as int), k)),
                out@.len() == matching(s.take(i as int), k).len(),
                out@.len() <= limit,
            decreases self.notes.len() - i,
        {
            if self.notes[i].kind == k {
                let rec = project_note(&self.notes[i]);
                proof {
                    lemma_matching_take_step(s, k, i as int);
                    lemma_project_all_push(matching(s.take(i as int), k), s[i as int]);
                }
                out.push(rec);
            } else {
                proof {
                    lemma_matching_take_step(s, k, i as int);
                }
            }
            i += 1;
        }
        proof {
            let gl = limit as int;
            let m = matching(s, k);
            let mi = matching(s.take(i as int), k);
            lemma_matching_sorted(s, k);
            if i == self.notes.len() {
                assert(s.take(i as int) =~= s);
            } else {
                lemma_matching_split(s, k, i as int);
                assert(m.take(gl) =~= mi);
                if m.len() <= gl {
                    assert(m =~= mi);
                }
            }
            let mm = if m.len() <= gl {
                m
            } else {
                m.take(gl)
            };
            assert(mm =~= mi);
            assert forall|a: int, b: int|
                #![trigger mm[a].created_at, mm[b].created_at]
                0 <= a <= b < mm.len() implies mm[a].created_at >= mm[b].created_at by {
                assert(mm[a] == m[a] && mm[b] == m[b]);
            }
            lemma_project_all_props(mm);
            assert forall|a: int, b: int|
                #![trigger out@[a].created_at, out@[b].created_at]
                0 <= a <= b < out@.len() implies out@[a].created_at >= out@[b].created_at by {
                assert(out@[a] == spec_project(mm[a]) && out@[b] == spec_project(mm[b]));
            }
        }
        out
    }
}

/// The notes of `s` whose kind code is `k`, in order.
pub open spec fn matching(s: Seq<StoredNote>, k: u16) -> Seq<StoredNote>
    decreases s.len(),
{
    if s.len() == 0 {
        Seq::empty()
    } else if s.last().kind == k {
        matching(s.drop_last(), k).push(s.last())
    } else {
        matching(s.drop_last(), k)
    }
}

/// The projections of the notes of `s`, in order.
pub open spec fn project_all(s: Seq<StoredNote>) -> Seq<NoteRecord>
    decreases s.len(),
{
    if s.len() == 0 {
        Seq::empty()
    } else {
        project_all(s.drop_last()).push(spec_project(s.last()))
    }
}

/// What a list caller asking for at most `limit` notes of kind `k` receives
/// from the stored sequence `s`: the first (newest) `limit` matching notes,
/// projected, in store order.
pub open spec fn spec_recent(s: Seq<StoredNote>, k: u16, limit: int) -> Seq<NoteRecord> {
    let m = matching(s, k);
    if m.len() <= limit {
        project_all(m)
    } else {
        project_all(m.take(limit))
    }
}

/// Extending the scanned prefix by one note extends its filtered sequence by
/// that note exactly when the kinds agree.
proof fn lemma_matching_take_step(s: Seq<StoredNote>, k: u16, i: int)
    requires
        0 <= i < s.len(),
    ensures
        matching(s.take(i + 1), k) == if s[i].kind == k {
            matching(s.take(i), k).push(s[i])
        } else {
            matching(s.take(i), k)
        },
{
    assert(s.take(i + 1).drop_last() =~= s.take(i));
    assert(s.take(i + 1).last() == s[i]);
}

/// Projection commutes with extending a sequence by one note.
proof fn lemma_project_all_push(s: Seq<StoredNote>, n: StoredNote)
    ensures
        project_all(s.push(n)) == project_all(s).push(spec_project(n)),
{
    assert(s.push(n).drop_last() =~= s);
}

/// Projection keeps length and the per-index fields.
proof fn lemma_project_all_props(s: Seq<StoredNote>)
    ensures
        project_all(s).len() == s.len(),
        forall|i: int| 0 <= i < s.len() ==> (#[trigger] project_all(s)[i]) == spec_project(s[i]),
    decreases s.len(),
{
    if s.len() > 0 {
        lemma_project_all_props(s.drop_last());
        assert forall|i: int| 0 <= i < s.len() implies (#[trigger] project_all(s)[i])
            == spec_project(s[i]) by {
            if i < s.len() - 1 {
                assert(project_all(s)[i] == project_all(s.drop_last())[i]);
                assert(s.drop_last()[i] == s[i]);
            }
        }
    }
}

/// The filtered sequence of a whole sequence splits at any point into the
/// filtered prefix followed by the filtered suffix.
proof fn lemma_matching_split(s: Seq<StoredNote>, k: u16, i: int)
    requires
        0 <= i <= s.len(),
    ensures
        matching(s, k) == matching(s.take(i), k) + matching(s.skip(i), k),
    decreases s.len(),
{
    if i == s.len() {
        assert(s.take(i) =~= s);
        assert(s.skip(i).len() == 0);
        assert(matching(s, k) =~= matching(s.take(i), k) + matching(s.skip(i), k));
    } else {
        let dl = s.drop_last();
        lemma_matching_split(dl, k, i);
        assert(dl.take(i) =~= s.take(i));
        assert(dl.skip(i) =~= s.skip(i).drop_last());
        assert(s.skip(i).last() == s.last());
        if s.last().kind == k {
            assert(matching(s, k) == matching(dl, k).push(s.last()));
            assert(matching(s.skip(i), k) == matching(dl.skip(i), k).push(s.last()));
            assert(matching(s.take(i), k) + matching(dl.skip(i), k).push(s.last()) =~= (matching(
                s.take(i),
                k,
            ) + matching(dl.skip(i), k)).push(s.last()));
        } else {
            assert(matching(s, k) == matching(dl, k));
            assert(matching(s.skip(i), k) == matching(dl.skip(i), k));
        }
    }
}

/// Filtering keeps the newest-first order, and every kept note is at least
/// as new as the source's oldest.
proof fn lemma_matching_sorted(s: Seq<StoredNote>, k: u16)
    requires
        sorted_newest_first(s),
    ensures
        sorted_newest_first(matching(s, k)),
        s.len() > 0 ==> forall|t: int|
            0 <= t < matching(s, k).len() ==> (#[trigger] matching(s, k)[t].created_at)
                >= s.last().created_at,
    decreases s.len(),
{
    if s.len() > 0 {
        let d = s.drop_last();
        let m = matching(d, k);
        assert forall|i: int, j: int|
            #![trigger d[i].created_at, d[j].created_at]
            0 <= i <= j < d.len() implies d[i].created_at >= d[j].created_at by {
            assert(d[i] == s[i] && d[j] == s[j]);
        }
        lemma_matching_sorted(d, k);
        if d.len() > 0 {
            assert(d.last() == s[s.len() - 2]);
            assert(d.last().created_at >= s.last().created_at);
        }
        assert(forall|t: int|
            0 <= t < m.len() ==> (#[trigger] m[t].created_at) >= s.last().created_at);
        if s.last().kind == k {
            let r = m.push(s.last());
            assert forall|i: int, j: int|
                #![trigger r[i].created_at, r[j].created_at]
                0 <= i <= j < r.len() implies r[i].created_at >= r[j].created_at by {
                if j < m.len() {
                    assert(r[i] == m[i] && r[j] == m[j]);
                } else {
                    assert(r[j] == s.last());
                    if i < m.len() {
                        assert(r[i] == m[i]);
                    }
                }
            }
            assert forall|t: int|
                0 <= t < r.len() implies (#[trigger] r[t].created_at)
                >= s.last().created_at by {
                if t < m.len() {
                    assert(r[t] == m[t]);
                } else {
                    assert(r[t] == s.last());
                }
            }
        }
    }
}

/// An index-placed insertion at the position the put loop finds is exactly
/// the newest-first functional insertion.
proof fn lemma_insert_position(s: Seq<StoredNote>, n: StoredNote, idx: int)
    requires
        0 <= idx <= s.len(),
        forall|j: int| 0 <= j < idx ==> (#[trigger] s[j].created_at) >= n.created_at,
        idx == s.len() || s[idx].created_at < n.created_at,
    ensures
        s.insert(idx, n) == spec_insert_newest_first(s, n),
    decreases idx,
{
    if idx == 0 {
        if s.len() == 0 {
            assert(s.insert(0, n) =~= seq![n]);
        } else {
            assert(s.insert(0, n) =~= seq![n] + s);
        }
    } else {
        let t = s.skip(1);
        assert(s[0].created_at >= n.created_at);
        assert forall|j: int| 0 <= j < idx - 1 implies (#[trigger] t[j].created_at)
            >= n.created_at by {
            assert(t[j] == s[j + 1]);
        }
        if idx - 1 < t.len() {
            assert(t[idx - 1] == s[idx]);
        }
        lemma_insert_position(t, n, idx - 1);
        assert(s.insert(idx, n) =~= seq![s[0]] + t.insert(idx - 1, n));
    }
}

/// Inserting a fresh identifier at a boundary position keeps the store
/// well-formed.
proof fn lemma_insert_keeps_wf(s: Seq<StoredNote>, n: StoredNote, idx: int)
    requires
        unique_ids(s),
        sorted_newest_first(s),
        !contains_id(s, n.id@),
        0 <= idx <= s.len(),
        forall|j: int| 0 <= j < idx ==> (#[trigger] s[j].created_at) >= n.created_at,
        idx == s.len() || s[idx].created_at < n.created_at,
    ensures
        unique_ids(s.insert(idx, n)),
        sorted_newest_first(s.insert(idx, n)),
{
    let t = s.insert(idx, n);
    assert forall|a: int, b: int|
        #![trigger t[a].id@, t[b].id@]
        0 <= a < b < t.len() implies t[a].id@ != t[b].id@ by {
        if a != idx && b != idx {
            let a0 = if a < idx { a } else { a - 1 };
            let b0 = if b < idx { b } else { b - 1 };
            assert(t[a] == s[a0] && t[b] == s[b0]);
        } else if a == idx {
            let b0 = b - 1;
            assert(t[b] == s[b0]);
        } else {
            let a0 = a;
            assert(t[a] == s[a0]);
        }
    }
    assert forall|a: int, b: int|
        #![trigger t[a].created_at, t[b].created_at]
        0 <= a <= b < t.len() implies t[a].created_at >= t[b].created_at by {
        if a != idx && b != idx {
            let a0 = if a < idx { a } else { a - 1 };
            let b0 = if b < idx { b } else { b - 1 };
            assert(t[a] == s[a0] && t[b] == s[b0]);
        } else if a == idx && b == idx {
        } else if a == idx {
            let b0 = b - 1;
            assert(t[b] == s[b0]);
            assert(s[idx].created_at < n.created_at || idx == s.len());
            assert(idx <= b0 < s.len());
            assert(s[idx].created_at >= s[b0].created_at);
        } else {
            let a0 = a;
            assert(t[a] == s[a0]);
        }
    }
}

} // verus!
