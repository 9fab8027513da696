//! Tests of the note normalizer: pitch inversion, sorting, re-basing,
//! idempotence, and the error taxonomy.

use lasermidi::{normalize, Error, EventKind, Note, Score, TimedEvent, Track};

fn on(delta: u64, pitch: u8) -> TimedEvent {
    TimedEvent { delta_time: delta, kind: EventKind::NoteOn { pitch, velocity: 64 } }
}

fn off(delta: u64, pitch: u8) -> TimedEvent {
    TimedEvent { delta_time: delta, kind: EventKind::NoteOff { pitch, velocity: 0 } }
}

fn meta(delta: u64) -> TimedEvent {
    TimedEvent { delta_time: delta, kind: EventKind::Meta }
}

fn score_of(division: i16, events: Vec<TimedEvent>) -> Score {
    Score { division, tracks: vec![Track { events }] }
}

#[test]
fn inverts_pitch_and_accumulates_time() {
    let score = score_of(96, vec![on(10, 60), off(5, 60), on(5, 72), meta(0)]);
    let notes = normalize(&score, 0).unwrap();
    assert_eq!(notes, vec![Note { time: 0, note: 68 }, Note { time: 10, note: 56 }]);
}

#[test]
fn sorts_by_time_and_rebases_to_zero() {
    // delta times accumulate; first note-on is late, so everything shifts
    let score = score_of(96, vec![meta(100), on(0, 50), on(20, 40), on(0, 45)]);
    let notes = normalize(&score, 0).unwrap();
    assert_eq!(notes[0], Note { time: 0, note: 78 });
    // equal times are ordered by the inverted pitch value
    assert_eq!(notes[1], Note { time: 20, note: 83 });
    assert_eq!(notes[2], Note { time: 20, note: 88 });
}

#[test]
fn velocity_zero_note_on_still_counts() {
    let score = score_of(
        96,
        vec![TimedEvent { delta_time: 0, kind: EventKind::NoteOn { pitch: 60, velocity: 0 } }],
    );
    let notes = normalize(&score, 0).unwrap();
    assert_eq!(notes.len(), 1);
}

#[test]
fn normalize_is_idempotent_on_normalized_input() {
    let score = score_of(96, vec![meta(7), on(3, 60), on(96, 64), on(0, 62)]);
    let first = normalize(&score, 0).unwrap();
    // feed the normalized notes back in as a fresh track
    let mut events = Vec::new();
    let mut clock = 0u64;
    for n in &first {
        events.push(on(n.time - clock, 128 - n.note));
        clock = n.time;
    }
    let second = normalize(&score_of(96, events), 0).unwrap();
    assert_eq!(first, second);
}

#[test]
fn zero_division_is_unsupported() {
    let score = score_of(0, vec![on(0, 60)]);
    assert_eq!(normalize(&score, 0), Err(Error::UnsupportedDiv));
}

#[test]
fn negative_division_is_unsupported() {
    let score = score_of(-25, vec![on(0, 60)]);
    assert_eq!(normalize(&score, 0), Err(Error::UnsupportedDiv));
}

#[test]
fn track_index_at_count_is_not_found() {
    let score = score_of(96, vec![on(0, 60)]);
    assert_eq!(normalize(&score, 1), Err(Error::TrackNotFound));
}

#[test]
fn track_of_meta_events_only_is_empty() {
    let score = score_of(96, vec![meta(0), meta(10), off(3, 60)]);
    assert_eq!(normalize(&score, 0), Err(Error::EmptyTrack));
}

#[test]
fn decimal_rendering_is_exact() {
    assert_eq!(lasermidi::decimal::dec_string(0), "0");
    assert_eq!(lasermidi::decimal::dec_string(7), "7");
    assert_eq!(lasermidi::decimal::dec_string(10), "10");
    assert_eq!(lasermidi::decimal::dec_string(12345), "12345");
    assert_eq!(lasermidi::decimal::dec_string(1000000), "1000000");
}
