//! Tests of the strip/page packer: counts, grouping, and offsets.

use lasermidi::{EventKind, JoinStyle, Options, Score, TimedEvent, Track};

fn opts() -> Options {
    Options {
        track_num: 0,
        notes: vec![
            40, 42, 44, 45, 46, 47, 48, 49, 50, 51, 52, 53, 54, 55, 56, 57, 58, 59, 60, 61, 62,
            63, 64, 66, 68, 69, 71, 73, 78, 80,
        ],
        tape_height: 68_600,
        interior_margin_top: 6_000,
        interior_margin_bottom: 5_000,
        interior_margin_left: 20_000,
        interior_margin_right: 20_000,
        page_width: 297_000,
        page_height: 210_000,
        margin_left: 10_000,
        margin_top: 10_000,
        margin_right: 10_000,
        margin_bottom: 10_000,
        gap: 10_000,
        hole_diameter: 2_400,
        cut_stroke_width: 80,
        stretch: 16_000,
        lead_in_width: 15_000,
        lead_in_height: 35_000,
        num_zig_zags: 5,
        join_width: 5_000,
        join_style: JoinStyle::ZigZag,
        title: String::new(),
    }
}

fn on(delta: u64, pitch: u8) -> TimedEvent {
    TimedEvent { delta_time: delta, kind: EventKind::NoteOn { pitch, velocity: 64 } }
}

fn mm(o: &Options, div: i16, v: i128) -> f64 {
    v as f64 / o.units_per_mm(div) as f64
}

#[test]
fn one_hundred_beats_pack_into_seven_strips_on_four_pages() {
    let o = opts();
    // total width 1600 mm; budgets: first 235.8, middle 272, last 255.8
    // remainder 1108.4 / 272 rounds up to 5 middle strips
    assert_eq!(o.strip_count(96, 9600), 7);
    // (210 - 10 - 10 - 68.6) / (10 + 68.6) floors to 1, so two rows per page
    assert_eq!(o.strips_per_page(), 2);
    assert_eq!(o.page_count(96, 9600), 4);
}

#[test]
fn short_piece_needs_one_strip() {
    let o = opts();
    // 219.6 mm fits the lone-strip budget exactly
    let max_fit = (219_600.0_f64 / (16_000.0 / 96.0)).floor() as u64;
    assert_eq!(o.strip_count(96, max_fit), 1);
    assert_eq!(o.strip_count(96, max_fit + 1), 2);
}

#[test]
fn straight_join_widens_the_budgets() {
    let mut o = opts();
    o.join_style = JoinStyle::Straight;
    // no join material: first 240.8, middle 277, last 255.8
    // remainder 1103.4 / 277 rounds up to 4 middle strips
    assert_eq!(o.strip_count(96, 9600), 6);
}

#[test]
fn pages_fill_top_to_bottom_and_the_last_takes_the_rest() {
    let o = opts();
    let mut events = vec![on(0, 60)];
    for _ in 0..100 {
        events.push(on(96, 60));
    }
    let score = Score { division: 96, tracks: vec![Track { events }] };
    let pages = o.layout(&score).unwrap();
    assert_eq!(pages.len(), 4);
    assert_eq!(pages[0].strips.len(), 2);
    assert_eq!(pages[1].strips.len(), 2);
    assert_eq!(pages[2].strips.len(), 2);
    assert_eq!(pages[3].strips.len(), 1);
}

#[test]
fn offsets_shift_the_timeline_across_strips() {
    let o = opts();
    let x0 = mm(&o, 96, o.x_offset(96, 9600, 0));
    assert!((x0 - 36.2).abs() < 1e-9);
    let x1 = mm(&o, 96, o.x_offset(96, 9600, 1));
    assert!((x1 + 235.8).abs() < 1e-9);
    let x2 = mm(&o, 96, o.x_offset(96, 9600, 2));
    assert!((x2 + (235.8 + 272.0)).abs() < 1e-9);
}

#[test]
fn tick_width_scales_by_stretch_over_division() {
    let o = opts();
    assert!((mm(&o, 96, o.time_to_width(96)) - 16.0).abs() < 1e-12);
    assert!((mm(&o, 96, o.time_to_width(0)) - 0.0).abs() < 1e-12);
    assert!((mm(&o, 96, o.time_to_width(24)) - 4.0).abs() < 1e-12);
}

#[test]
fn a_page_too_short_for_the_tape_still_takes_one_strip() {
    let mut o = opts();
    o.page_height = 50_000;
    assert_eq!(o.strips_per_page(), 1);
}
