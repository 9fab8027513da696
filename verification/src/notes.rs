//! Note normalizer: turns the input event container into the ordered,
//! zero-based note sequence that the layout engine consumes.
//!
//! The input is an already-decoded container of tracks, each an ordered
//! sequence of delta-timed events, plus a ticks-per-beat division. For every
//! note-on event the normalizer records the absolute tick together with the
//! inverted pitch `128 - raw_pitch` (higher physical rows carry lower
//! pitches, mirroring how holes are punched top to bottom on the tape). The
//! collected notes are sorted by time and re-based so the first note starts
//! at tick zero.

use vstd::prelude::*;
use vstd::relations::total_ordering;
use vstd::relations::sorted_by;

use crate::model::Error;

verus! {

/// Largest cumulative tick value a track may reach. Absolute times beyond
/// this could push scaled x-coordinates outside the 128-bit range that the
/// geometry is computed in.
pub const MAX_TRACK_TIME: u64 = 0xFFFF_FFFF;

/// What a single input event carries besides its delta time.
#[derive(Debug, Eq, PartialEq, Copy, Clone, Structural)]
pub enum EventKind {
    /// A key is struck. Velocity is carried through but never read: a
    /// note-on of any velocity punches a hole.
    NoteOn { pitch: u8, velocity: u8 },
    /// A key is released. The tape has no note lengths, so this is skipped.
    NoteOff { pitch: u8, velocity: u8 },
    /// Any non-sonic event (tempo, lyrics, ...). Skipped.
    Meta,
}

/// One input event: ticks since the previous event, and its payload.
#[derive(Debug, Eq, PartialEq, Copy, Clone, Structural)]
pub struct TimedEvent {
    pub delta_time: u64,
    pub kind: EventKind,
}

/// One ordered track of events.
#[derive(Debug)]
pub struct Track {
    pub events: Vec<TimedEvent>,
}

/// The decoded input container: a division (ticks per beat; non-positive
/// values mean timecode-based timing, which the engine rejects) and the
/// ordered tracks.
#[derive(Debug)]
pub struct Score {
    pub division: i16,
    pub tracks: Vec<Track>,
}

/// A normalized note: ticks since the first note, and the row-space pitch
/// value `128 - raw_pitch`.
#[derive(Debug, Eq, PartialEq, Copy, Clone, Structural)]
pub struct Note {
    pub time: u64,
    pub note: u8,
}

/// Order on notes: by time, ties broken by the pitch value. A total order,
/// so sorting is deterministic.
pub open spec fn note_le(a: Note, b: Note) -> bool {
    a.time < b.time || (a.time == b.time && a.note <= b.note)
}

/// The note order as a first-class relation, for vstd's sorting library.
pub open spec fn note_leq() -> spec_fn(Note, Note) -> bool {
    |a: Note, b: Note| note_le(a, b)
}

pub proof fn lemma_note_leq_total_ordering()
    ensures
        total_ordering(note_leq()),
{
}

/// Total delta time of an event sequence.
pub open spec fn events_time(events: Seq<TimedEvent>) -> int
    decreases events.len(),
{
    if events.len() == 0 {
        0
    } else {
        events[0].delta_time + events_time(events.drop_first())
    }
}

pub proof fn lemma_events_time_nonneg(events: Seq<TimedEvent>)
    ensures
        events_time(events) >= 0,
    decreases events.len(),
{
    if events.len() > 0 {
        lemma_events_time_nonneg(events.drop_first());
    }
}

/// Every extracted note's absolute time is bounded by the starting clock
/// plus the track's total delta time.
pub proof fn lemma_extract_times(events: Seq<TimedEvent>, clock: int)
    requires
        clock >= 0,
    ensures
        forall|i: int|
            0 <= i < extract_from(events, clock).len() ==> (#[trigger] extract_from(
                events,
                clock,
            )[i].time) <= clock + events_time(events),
    decreases events.len(),
{
    lemma_events_time_nonneg(events);
    if events.len() > 0 {
        let t = clock + events[0].delta_time;
        lemma_extract_times(events.drop_first(), t);
        lemma_events_time_nonneg(events.drop_first());
        let e = extract_from(events, clock);
        let rest = extract_from(events.drop_first(), t);
        assert forall|i: int| 0 <= i < e.len() implies (#[trigger] e[i].time) <= clock
            + events_time(events) by {
            match events[0].kind {
                EventKind::NoteOn { pitch, velocity } => {
                    if i == 0 {
                        assert(t <= clock + events_time(events));
                    } else {
                        assert(e[i] == rest[i - 1]);
                    }
                },
                _ => {
                    assert(e[i] == rest[i]);
                },
            }
        }
    }
}

/// Every note-on pitch is at most 128, so that the row-space inversion
/// `128 - pitch` stays a byte. (Real pitches are seven-bit values.)
pub open spec fn pitches_ok(events: Seq<TimedEvent>) -> bool {
    forall|i: int|
        0 <= i < events.len() ==> match #[trigger] events[i].kind {
            EventKind::NoteOn { pitch, velocity } => pitch <= 128,
            _ => true,
        }
}

/// The notes recorded from `events` when the absolute clock starts at
/// `clock`: a left-fold accumulating delta times, keeping note-on events.
pub open spec fn extract_from(events: Seq<TimedEvent>, clock: int) -> Seq<Note>
    decreases events.len(),
{
    if events.len() == 0 {
        Seq::empty()
    } else {
        let t = clock + events[0].delta_time;
        let rest = extract_from(events.drop_first(), t);
        match events[0].kind {
            EventKind::NoteOn { pitch, velocity } => seq![
                Note { time: t as u64, note: (128 - pitch) as u8 },
            ] + rest,
            _ => rest,
        }
    }
}

/// The raw (unsorted, un-based) notes of an event sequence.
pub open spec fn extracted_notes(events: Seq<TimedEvent>) -> Seq<Note> {
    extract_from(events, 0)
}

/// Shift a time-sorted note sequence so its first note sits at tick zero.
pub open spec fn rebased(s: Seq<Note>) -> Seq<Note> {
    if s.len() == 0 {
        s
    } else {
        Seq::new(s.len(), |i: int| Note { time: (s[i].time - s[0].time) as u64, note: s[i].note })
    }
}

/// The normalized form of a raw note sequence: sorted by `note_le`, then
/// re-based to start at time zero.
pub open spec fn normalized(s: Seq<Note>) -> Seq<Note> {
    rebased(s.sort_by(note_leq()))
}

/// First position whose note is not strictly below `n`; the insertion point
/// that keeps a sorted vector sorted.
fn insert_pos(v: &Vec<Note>, n: Note) -> (i: usize)
    ensures
        0 <= i <= v@.len(),
        forall|j: int| 0 <= j < i ==> !note_le(n, #[trigger] v@[j]),
        i < v@.len() ==> note_le(n, v@[i as int]),
{
    let mut i: usize = 0;
    while i < v.len()
        invariant
            0 <= i <= v@.len(),
            forall|j: int| 0 <= j < i ==> !note_le(n, #[trigger] v@[j]),
        decreases v@.len() - i,
    {
        let c = v[i];
        if n.time < c.time || (n.time == c.time && n.note <= c.note) {
            return i;
        }
        i += 1;
    }
    i
}

/// Insert one note into an already sorted vector, keeping it sorted.
fn sorted_insert(v: &mut Vec<Note>, n: Note)
    requires
        sorted_by(old(v)@, note_leq()),
    ensures
        sorted_by(final(v)@, note_leq()),
        final(v)@.to_multiset() == old(v)@.to_multiset().insert(n),
        final(v)@.len() == old(v)@.len() + 1,
{
    let i = insert_pos(v, n);
    proof {
        vstd::seq_lib::to_multiset_insert(v@, i as int, n);
    }
    v.insert(i, n);
    proof {
        let s = v@;
        assert forall|x: int, y: int| 0 <= x < y < s.len() implies note_leq()(s[x], s[y]) by {
            if y < i {
                assert(note_leq()(old(v)@[x], old(v)@[y]));
            } else if x > i {
                assert(note_leq()(old(v)@[x - 1], old(v)@[y - 1]));
            } else if y == i {
                // everything before position i was strictly below n
                assert(!note_le(n, old(v)@[x]));
            } else if x == i {
                // v[i] = n <= old first kept element <= the rest
                if y == i + 1 {
                    assert(note_le(n, old(v)@[i as int]));
                } else {
                    assert(note_le(n, old(v)@[i as int]));
                    assert(note_leq()(old(v)@[i as int], old(v)@[y - 1]));
                }
            } else {
                // x < i < y with y > i: both sides come from the old vector
                assert(note_leq()(old(v)@[x], old(v)@[y - 1]));
            }
        }
    }
}

/// Sort notes by time (ties by pitch value). The result is exactly the
/// mathematical `sort_by` of the input, so callers reason about one
/// canonical sorted sequence.
fn sort_notes(v: Vec<Note>) -> (r: Vec<Note>)
    ensures
        r@ == v@.sort_by(note_leq()),
{
    let mut r: Vec<Note> = Vec::new();
    let mut i: usize = 0;
    proof {
        assert(v@.take(0int) =~= Seq::<Note>::empty());
    }
    while i < v.len()
        invariant
            0 <= i <= v@.len(),
            sorted_by(r@, note_leq()),
            r@.to_multiset() == v@.take(i as int).to_multiset(),
        decreases v@.len() - i,
    {
        let n = v[i];
        proof {
            assert(v@.take(i as int + 1).drop_last() =~= v@.take(i as int));
            assert(v@.take(i as int + 1) =~= v@.take(i as int).push(n));
            vstd::seq_lib::to_multiset_build(v@.take(i as int), n);
        }
        sorted_insert(&mut r, n);
        i += 1;
    }
    proof {
        assert(v@.take(v@.len() as int) =~= v@);
        lemma_note_leq_total_ordering();
        v@.lemma_sort_by_ensures(note_leq());
        vstd::seq_lib::lemma_sorted_unique(r@, v@.sort_by(note_leq()), note_leq());
        assert(r@ =~= v@.sort_by(note_leq()));
    }
    r
}

/// Subtract the first (minimal) time from every note.
fn rebase_notes(v: Vec<Note>) -> (r: Vec<Note>)
    requires
        sorted_by(v@, note_leq()),
    ensures
        r@ == rebased(v@),
        sorted_by(r@, note_leq()),
        r@.len() == v@.len(),
        r@.len() > 0 ==> r@[0].time == 0,
{
    let mut r: Vec<Note> = Vec::new();
    if v.len() == 0 {
        proof {
            assert(r@ =~= rebased(v@));
        }
        return r;
    }
    let base = v[0].time;
    let mut i: usize = 0;
    while i < v.len()
        invariant
            0 <= i <= v@.len(),
            v@.len() > 0,
            base == v@[0].time,
            sorted_by(v@, note_leq()),
            r@.len() == i,
            forall|j: int|
                0 <= j < i ==> #[trigger] r@[j] == (Note {
                    time: (v@[j].time - base) as u64,
                    note: v@[j].note,
                }),
        decreases v@.len() - i,
    {
        proof {
            // sortedness gives base <= v[i].time, so the subtraction is exact
            assert(note_leq()(v@[0], v@[i as int]));
        }
        let n = v[i];
        r.push(Note { time: n.time - base, note: n.note });
        i += 1;
    }
    proof {
        assert(r@ =~= rebased(v@));
        assert forall|x: int, y: int| 0 <= x < y < r@.len() implies note_leq()(r@[x], r@[y]) by {
            assert(note_leq()(v@[x], v@[y]));
            assert(note_leq()(v@[0], v@[x]));
        }
    }
    r
}

/// Collect the note-on events of `events` as notes with absolute times and
/// inverted pitches.
fn extract_notes(events: &Vec<TimedEvent>) -> (r: Vec<Note>)
    requires
        events_time(events@) <= MAX_TRACK_TIME,
        pitches_ok(events@),
    ensures
        r@ == extracted_notes(events@),
{
    let mut r: Vec<Note> = Vec::new();
    let mut clock: u64 = 0;
    let mut i: usize = 0;
    proof {
        assert(events@.skip(0int) =~= events@);
        assert(Seq::<Note>::empty() + extract_from(events@, 0int) =~= extract_from(events@, 0int));
    }
    while i < events.len()
        invariant
            0 <= i <= events@.len(),
            pitches_ok(events@),
            clock + events_time(events@.skip(i as int)) <= MAX_TRACK_TIME,
            clock >= 0,
            r@ + extract_from(events@.skip(i as int), clock as int) == extracted_notes(events@),
        decreases events@.len() - i,
    {
        let ghost pre = events@.skip(i as int);
        proof {
            assert(pre[0] == events@[i as int]);
            assert(pre.drop_first() =~= events@.skip(i as int + 1));
            lemma_events_time_nonneg(pre.drop_first());
        }
        let e = events[i];
        clock = clock + e.delta_time;
        match e.kind {
            EventKind::NoteOn { pitch, velocity } => {
                r.push(Note { time: clock, note: 128 - pitch });
                proof {
                    assert(r@ + extract_from(events@.skip(i as int + 1), clock as int)
                        =~= r@.drop_last() + extract_from(pre, clock as int - e.delta_time));
                }
            },
            _ => {
                proof {
                    assert(r@ + extract_from(events@.skip(i as int + 1), clock as int)
                        =~= r@ + extract_from(pre, clock as int - e.delta_time));
                }
            },
        }
        i += 1;
    }
    proof {
        assert(events@.skip(events@.len() as int) =~= Seq::<TimedEvent>::empty());
        assert(r@ =~= r@ + extract_from(events@.skip(events@.len() as int), clock as int));
    }
    r
}

impl Score {
    /// Total delta time of the selected track, for stating input bounds.
    pub open spec fn track_time(&self, track_num: int) -> int {
        events_time(self.tracks@[track_num].events@)
    }
}

/// Normalize the selected track of a score into the engine's note sequence:
/// note-on events become `(absolute tick, 128 - pitch)`, sorted by time and
/// re-based so the earliest note is at tick zero.
///
/// Fails with `UnsupportedDiv` on a non-positive division, `TrackNotFound`
/// when the track index is out of range, and `EmptyTrack` when the track has
/// no note-on events; exactly in that order of precedence.
pub fn normalize(score: &Score, track_num: usize) -> (r: Result<Vec<Note>, Error>)
    requires
        track_num < score.tracks@.len() ==> {
            &&& score.track_time(track_num as int) <= MAX_TRACK_TIME
            &&& pitches_ok(score.tracks@[track_num as int].events@)
        },
    ensures
        score.division <= 0 <==> r == Result::<Vec<Note>, Error>::Err(Error::UnsupportedDiv),
        score.division > 0 ==> (track_num >= score.tracks@.len() <==> r
            == Result::<Vec<Note>, Error>::Err(Error::TrackNotFound)),
        score.division > 0 && track_num < score.tracks@.len() ==> {
            let notes = extracted_notes(score.tracks@[track_num as int].events@);
            if notes.len() == 0 {
                r == Result::<Vec<Note>, Error>::Err(Error::EmptyTrack)
            } else {
                r is Ok && r->Ok_0@ == normalized(notes)
            }
        },
        r is Ok ==> r->Ok_0@.len() > 0 && r->Ok_0@[0].time == 0 && sorted_by(
            r->Ok_0@,
            note_leq(),
        ),
        r is Ok ==> forall|i: int|
            0 <= i < r->Ok_0@.len() ==> (#[trigger] r->Ok_0@[i].time) <= MAX_TRACK_TIME,
{
    if score.division <= 0 {
        return Err(Error::UnsupportedDiv);
    }
    if track_num >= score.tracks.len() {
        return Err(Error::TrackNotFound);
    }
    let raw = extract_notes(&score.tracks[track_num].events);
    if raw.len() == 0 {
        return Err(Error::EmptyTrack);
    }
    let sorted = sort_notes(raw);
    proof {
        let ghost notes = extracted_notes(score.tracks@[track_num as int].events@);
        lemma_note_leq_total_ordering();
        notes.lemma_sort_by_ensures(note_leq());
        notes.to_multiset_ensures();
        notes.sort_by(note_leq()).to_multiset_ensures();
    }
    let based = rebase_notes(sorted);
    proof {
        let notes = extracted_notes(score.tracks@[track_num as int].events@);
        let srt = notes.sort_by(note_leq());
        lemma_extract_times(score.tracks@[track_num as int].events@, 0);
        assert forall|i: int| 0 <= i < based@.len() implies (#[trigger] based@[i].time)
            <= MAX_TRACK_TIME by {
            if i > 0 {
                assert(note_leq()(srt[0], srt[i]));
            }
            assert(based@[i] == rebased(srt)[i]);
            assert(based@[i].time <= srt[i].time);
            assert(srt.contains(srt[i]));
            assert(notes.contains(srt[i]));
            let j = choose|j: int| 0 <= j < notes.len() && notes[j] == srt[i];
            assert(notes[j].time <= events_time(score.tracks@[track_num as int].events@));
        }
    }
    Ok(based)
}

/// Normalization is idempotent: normalizing an already-normalized sequence
/// (sorted, first note at time zero) changes nothing, for every raw input.
pub proof fn lemma_normalize_idempotent(s: Seq<Note>)
    ensures
        normalized(normalized(s)) == normalized(s),
{
    lemma_note_leq_total_ordering();
    s.lemma_sort_by_ensures(note_leq());
    let t = s.sort_by(note_leq());
    let r = rebased(t);
    if s.len() == 0 {
        assert(t.len() == 0) by {
            s.to_multiset_ensures();
            t.to_multiset_ensures();
        }
        assert(r.len() == 0);
        r.lemma_sort_by_ensures(note_leq());
        assert(r.sort_by(note_leq()).len() == 0) by {
            r.to_multiset_ensures();
            r.sort_by(note_leq()).to_multiset_ensures();
        }
        assert(normalized(normalized(s)) =~= normalized(s));
    } else {
        assert(t.len() == s.len()) by {
            s.to_multiset_ensures();
            t.to_multiset_ensures();
        }
        // r is sorted: subtracting the common base keeps the order
        assert forall|x: int, y: int| 0 <= x < y < r.len() implies note_leq()(r[x], r[y]) by {
            assert(note_leq()(t[x], t[y]));
            assert(note_leq()(t[0], t[x]));
        }
        assert(sorted_by(r, note_leq()));
        // so sorting r is a no-op
        r.lemma_sort_by_ensures(note_leq());
        vstd::seq_lib::lemma_sorted_unique(r, r.sort_by(note_leq()), note_leq());
        assert(r.sort_by(note_leq()) =~= r);
        // and the base of r is zero, so re-basing r is a no-op too
        assert(r[0].time == 0);
        assert(rebased(r) =~= r);
        assert(normalized(normalized(s)) == normalized(s));
    }
}

} // verus!
