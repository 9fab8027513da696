//! End-to-end tests of the layout engine: geometry, labels, kerf
//! compensation, and per-strip hole placement.

use lasermidi::{Error, EventKind, JoinStyle, Options, Score, TimedEvent, Track};

fn default_notes() -> Vec<u8> {
    vec![
        40, 42, 44, 45, 46, 47, 48, 49, 50, 51, 52, 53, 54, 55, 56, 57, 58, 59, 60, 61, 62, 63,
        64, 66, 68, 69, 71, 73, 78, 80,
    ]
}

fn opts(title: &str) -> Options {
    Options {
        track_num: 0,
        notes: default_notes(),
        tape_height: 68_600,
        interior_margin_top: 6_000,
        interior_margin_bottom: 5_000,
        interior_margin_left: 20_000,
        interior_margin_right: 20_000,
        page_width: 297_000,
        page_height: 210_000,
        margin_left: 10_000,
        margin_top: 10_000,
        margin_right: 10_000,
        margin_bottom: 10_000,
        gap: 10_000,
        hole_diameter: 2_400,
        cut_stroke_width: 80,
        stretch: 16_000,
        lead_in_width: 15_000,
        lead_in_height: 35_000,
        num_zig_zags: 5,
        join_width: 5_000,
        join_style: JoinStyle::ZigZag,
        title: String::from(title),
    }
}

fn on(delta: u64, pitch: u8) -> TimedEvent {
    TimedEvent { delta_time: delta, kind: EventKind::NoteOn { pitch, velocity: 64 } }
}

fn score_of(division: i16, events: Vec<TimedEvent>) -> Score {
    Score { division, tracks: vec![Track { events }] }
}

fn mm(o: &Options, div: i16, v: i128) -> f64 {
    v as f64 / o.units_per_mm(div) as f64
}

#[test]
fn round_trip_single_note() {
    let o = opts("");
    let score = score_of(96, vec![on(0, 60)]);
    let pages = o.layout(&score).unwrap();
    assert_eq!(pages.len(), 1);
    assert_eq!(pages[0].strips.len(), 1);
    let strip = &pages[0].strips[0];
    assert_eq!(strip.holes.len(), 1);
    assert!(strip.texts.is_empty());
    // hole x: margin_left + lead_in + interior left clearance + hole radius
    let x = mm(&o, 96, strip.holes[0].0);
    assert!((x - 46.2).abs() < 1e-9);
    // pitch 60 inverts to 68, found at row 24 of the thirty-entry list
    let y = mm(&o, 96, strip.holes[0].1);
    let row_spacing = (68.6 - 6.0 - 5.0) / 29.0;
    assert!((y - (24.0 * row_spacing + 6.0 + 10.0)).abs() < 1e-9);
}

#[test]
fn single_strip_outline_is_lead_in_plus_square_edge() {
    let o = opts("");
    let score = score_of(96, vec![on(0, 60)]);
    let pages = o.layout(&score).unwrap();
    let strip = &pages[0].strips[0];
    assert_eq!(strip.outline.len(), 5);
    let p: Vec<(f64, f64)> = strip
        .outline
        .iter()
        .map(|&(x, y)| (mm(&o, 96, x), mm(&o, 96, y)))
        .collect();
    assert!((p[0].0 - 10.0).abs() < 1e-9 && (p[0].1 - 10.0).abs() < 1e-9);
    assert!((p[1].0 - 10.0).abs() < 1e-9 && (p[1].1 - 43.6).abs() < 1e-9);
    assert!((p[2].0 - 25.0).abs() < 1e-9 && (p[2].1 - 78.6).abs() < 1e-9);
    // right edge: note width 0 + offset 36.2 + clearance 20 + radius 1.2
    assert!((p[3].0 - 57.4).abs() < 1e-9 && (p[3].1 - 78.6).abs() < 1e-9);
    assert!((p[4].0 - 57.4).abs() < 1e-9 && (p[4].1 - 10.0).abs() < 1e-9);
}

#[test]
fn kerf_compensated_hole_radius() {
    let o = opts("");
    let r = mm(&o, 96, o.emitted_hole_radius(96));
    assert!((r - (2.4 - 0.08) / 2.0).abs() < 1e-12);
}

#[test]
fn kerf_compensation_for_other_strokes() {
    let mut o = opts("");
    o.cut_stroke_width = 500;
    let r = mm(&o, 96, o.emitted_hole_radius(96));
    assert!((r - (2.4 - 0.5) / 2.0).abs() < 1e-12);
    o.hole_diameter = 3_000;
    let r2 = mm(&o, 48, o.emitted_hole_radius(48));
    assert!((r2 - (3.0 - 0.5) / 2.0).abs() < 1e-12);
}

#[test]
fn concrete_scenario_row_five_of_twentynine() {
    // division 96, stretch 16 mm, one note at tick 96 on pitch 60; the
    // inverted value 68 sits at index 5 of a 29-entry list
    let mut o = opts("");
    o.notes = vec![
        30, 31, 32, 33, 34, 68, 35, 36, 37, 38, 39, 41, 43, 81, 82, 83, 84, 85, 86, 87, 88, 89,
        90, 91, 92, 93, 94, 95, 96,
    ];
    let score = score_of(96, vec![on(96, 60)]);
    let pages = o.layout(&score).unwrap();
    assert_eq!(pages.len(), 1);
    assert_eq!(pages[0].strips.len(), 1);
    let strip = &pages[0].strips[0];
    assert_eq!(strip.holes.len(), 1);
    let row_spacing = (68.6 - 6.0 - 5.0) / 28.0;
    let expected_local_y: f64 = 5.0 * row_spacing + 6.0;
    assert!((expected_local_y - 16.2857142857).abs() < 1e-6);
    let y = mm(&o, 96, strip.holes[0].1);
    assert!((y - (expected_local_y + 10.0)).abs() < 1e-6);
    // the lone note re-bases to tick zero, so it sits at the strip's start
    let x = mm(&o, 96, strip.holes[0].0);
    assert!((x - 46.2).abs() < 1e-6);
}

#[test]
fn labels_name_strip_and_count() {
    let o = opts("Song");
    let score = score_of(96, vec![on(0, 60)]);
    let pages = o.layout(&score).unwrap();
    let strip = &pages[0].strips[0];
    assert_eq!(strip.texts.len(), 1);
    assert_eq!(strip.texts[0].text, "Song (1 of 1)");
    let fx = mm(&o, 96, strip.texts[0].position.0);
    let fy = mm(&o, 96, strip.texts[0].position.1);
    assert!((fx - 25.0).abs() < 1e-9);
    assert!((fy - 13.0).abs() < 1e-9);
    let fs = mm(&o, 96, strip.texts[0].font_size);
    assert!((fs - 3.0).abs() < 1e-9);
}

#[test]
fn later_strip_labels_sit_past_the_join() {
    let o = opts("Song");
    // one hundred beats: seven strips over four pages
    let mut events = vec![on(0, 60)];
    for _ in 0..100 {
        events.push(on(96, 60));
    }
    let pages = o.layout(&score_of(96, events)).unwrap();
    let second = &pages[0].strips[1];
    assert_eq!(second.texts.len(), 1);
    assert_eq!(second.texts[0].text, "Song (2 of 7)");
    // one millimetre past the join material
    let fx = mm(&o, 96, second.texts[0].position.0);
    assert!((fx - 16.0).abs() < 1e-9);
}

#[test]
fn zig_zag_join_edges_interlock() {
    let o = opts("");
    let mut events = vec![on(0, 60)];
    for _ in 0..100 {
        events.push(on(96, 60));
    }
    let pages = o.layout(&score_of(96, events)).unwrap();
    // a middle strip: zig-zag on both sides, 2 * 5 + 1 points each
    let strip = &pages[0].strips[1];
    assert_eq!(strip.outline.len(), 22);
    let p: Vec<(f64, f64)> = strip
        .outline
        .iter()
        .map(|&(x, y)| (mm(&o, 96, x), mm(&o, 96, y)))
        .collect();
    let te = 10.0 + 68.6 + 10.0;
    // left edge: teeth alternate between the edge and join_width right
    assert!((p[0].0 - 10.0).abs() < 1e-9 && (p[0].1 - te).abs() < 1e-9);
    assert!((p[1].0 - 15.0).abs() < 1e-9 && (p[1].1 - (te + 6.86)).abs() < 1e-9);
    assert!((p[2].0 - 10.0).abs() < 1e-9 && (p[2].1 - (te + 13.72)).abs() < 1e-9);
    assert!((p[10].0 - 10.0).abs() < 1e-9 && (p[10].1 - (te + 68.6)).abs() < 1e-9);
    // right edge: the same shape traced bottom-up so the strips interlock
    let re = 297.0 - 10.0 - 5.0;
    assert!((p[11].0 - re).abs() < 1e-9 && (p[11].1 - (te + 68.6)).abs() < 1e-9);
    assert!((p[21].0 - re).abs() < 1e-9 && (p[21].1 - te).abs() < 1e-9);
}

#[test]
fn straight_and_diagonal_joins_are_two_point_edges() {
    let mut o = opts("");
    o.join_style = JoinStyle::Straight;
    let mut events = vec![on(0, 60)];
    for _ in 0..100 {
        events.push(on(96, 60));
    }
    let score = score_of(96, events);
    let pages = o.layout(&score).unwrap();
    let strip = &pages[0].strips[1];
    assert_eq!(strip.outline.len(), 4);
    let x0 = mm(&o, 96, strip.outline[0].0);
    let x1 = mm(&o, 96, strip.outline[1].0);
    assert!((x0 - 10.0).abs() < 1e-9 && (x1 - 10.0).abs() < 1e-9);

    o.join_style = JoinStyle::Diagonal;
    let pages = o.layout(&score).unwrap();
    let strip = &pages[0].strips[1];
    assert_eq!(strip.outline.len(), 4);
    let p1 = (mm(&o, 96, strip.outline[1].0), mm(&o, 96, strip.outline[1].1));
    assert!((p1.0 - 15.0).abs() < 1e-9);
    assert!((p1.1 - (10.0 + 68.6 + 10.0 + 68.6)).abs() < 1e-9);
}

#[test]
fn hole_x_is_monotone_within_each_strip() {
    let o = opts("");
    let mut events = vec![on(0, 60)];
    for i in 0..100 {
        events.push(on(96, if i % 2 == 0 { 64 } else { 60 }));
    }
    let pages = o.layout(&score_of(96, events)).unwrap();
    for page in &pages {
        for strip in &page.strips {
            for w in strip.holes.windows(2) {
                assert!(w[0].0 <= w[1].0);
            }
        }
    }
}

#[test]
fn every_note_lands_on_some_strip() {
    let o = opts("");
    let mut events = vec![on(0, 60)];
    for _ in 0..100 {
        events.push(on(96, 60));
    }
    let pages = o.layout(&score_of(96, events)).unwrap();
    let total: usize = pages
        .iter()
        .flat_map(|p| p.strips.iter())
        .map(|s| s.holes.len())
        .sum();
    assert!(total >= 101);
}

#[test]
fn unknown_pitch_is_reported_inverted() {
    let o = opts("");
    // pitch 33 inverts to 95, absent from the default list
    let score = score_of(96, vec![on(0, 60), on(10, 33)]);
    assert_eq!(o.layout(&score).unwrap_err(), Error::InvalidNote(95));
}

#[test]
fn layout_error_precedence_matches_normalizer() {
    let o = opts("");
    assert_eq!(o.layout(&score_of(0, vec![on(0, 60)])).unwrap_err(), Error::UnsupportedDiv);
    let mut o2 = opts("");
    o2.track_num = 3;
    assert_eq!(o2.layout(&score_of(96, vec![on(0, 60)])).unwrap_err(), Error::TrackNotFound);
    let score = score_of(
        96,
        vec![TimedEvent { delta_time: 0, kind: EventKind::Meta }],
    );
    assert_eq!(o.layout(&score).unwrap_err(), Error::EmptyTrack);
}
