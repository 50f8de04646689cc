use rand::rngs::StdRng;
use rand::SeedableRng;
use terminal_rain_lightning::lightning::{LightningBolt, LightningSegment};
use terminal_rain_lightning::Glyph;

fn seg(row: i32, col: i32, created: u64) -> LightningSegment {
    LightningSegment { row, col, created }
}

#[test]
fn new_bolt_has_one_seed_segment_and_target_in_range() {
    let mut rng = StdRng::seed_from_u64(1);
    for _ in 0..50 {
        let b = LightningBolt::new(&mut rng, 2, 40, 24, 80, 7);
        assert_eq!(b.segments, vec![seg(2, 40, 7)]);
        assert!(b.growing);
        assert_eq!(b.last_growth, 7);
        assert!(b.target_length >= 12 && b.target_length <= 22);
    }
}

#[test]
fn growth_step_adds_zigzag_and_fork() {
    let mut b = LightningBolt::with_target(2, 40, 24, 80, 15, 0);
    b.step_with(2000, &vec![1, -1], Some(3));
    assert_eq!(b.segments, vec![seg(2, 40, 0), seg(3, 41, 2000), seg(3, 40, 2000), seg(3, 43, 2000)]);
    assert!(b.growing);
    assert_eq!(b.last_growth, 2000);
}

#[test]
fn fork_on_zigzag_last_column_is_dropped() {
    let mut b = LightningBolt::with_target(2, 40, 24, 80, 15, 0);
    b.step_with(2000, &vec![2], Some(2));
    assert_eq!(b.segments, vec![seg(2, 40, 0), seg(3, 42, 2000)]);
}

#[test]
fn growth_waits_for_the_delay() {
    let mut b = LightningBolt::with_target(2, 40, 24, 80, 15, 0);
    b.step_with(1999, &vec![1], None);
    assert_eq!(b.segments, vec![seg(2, 40, 0)]);
    assert_eq!(b.last_growth, 0);
    b.step_with(2000, &vec![1], None);
    assert_eq!(b.segments.len(), 2);
}

#[test]
fn zigzag_is_clamped_to_terminal_width() {
    let mut b = LightningBolt::with_target(0, 79, 24, 80, 15, 0);
    b.step_with(2000, &vec![2, 2], None);
    assert_eq!(b.segments[1..], [seg(1, 79, 2000), seg(1, 79, 2000)]);
    let mut c = LightningBolt::with_target(0, 0, 24, 80, 15, 0);
    c.step_with(2000, &vec![-2], Some(-3));
    // the fork also lands on column 0, the zig-zag's column
    assert_eq!(c.segments[1..], [seg(1, 0, 2000)]);
}

#[test]
fn reaching_target_length_stops_growth_for_good() {
    let mut b = LightningBolt::with_target(2, 40, 24, 80, 3, 0);
    b.step_with(2000, &vec![0, 0], None);
    assert_eq!(b.segments.len(), 3);
    assert!(!b.growing);
    b.step_with(10_000, &vec![1, 1, 1], Some(3));
    assert_eq!(b.segments.len(), 3);
    assert!(!b.growing);
    assert_eq!(b.last_growth, 2000);
}

#[test]
fn bottom_row_stops_growth() {
    let mut b = LightningBolt::with_target(22, 10, 24, 80, 20, 0);
    b.step_with(2000, &vec![0], None);
    assert_eq!(b.segments.last(), Some(&seg(23, 10, 2000)));
    assert!(b.growing);
    b.step_with(4000, &vec![0], None);
    assert_eq!(b.segments.len(), 2);
    assert!(!b.growing);
}

#[test]
fn bolt_of_target_one_stops_on_first_step() {
    let mut b = LightningBolt::with_target(0, 5, 3, 10, 1, 0);
    b.step_with(2000, &vec![1], None);
    assert_eq!(b.segments.len(), 1);
    assert!(!b.growing);
}

#[test]
fn glyph_fades_with_age() {
    let b = LightningBolt::with_target(2, 40, 24, 80, 15, 0);
    let at = |now: u64| b.draw(now, 24, 80);
    assert_eq!(at(0), vec![Glyph { row: 2, col: 40, ch: '*' }]);
    assert_eq!(at(263_999), vec![Glyph { row: 2, col: 40, ch: '*' }]);
    assert_eq!(at(264_000), vec![Glyph { row: 2, col: 40, ch: '+' }]);
    assert_eq!(at(527_999), vec![Glyph { row: 2, col: 40, ch: '+' }]);
    assert_eq!(at(528_000), vec![Glyph { row: 2, col: 40, ch: '#' }]);
    assert_eq!(at(800_000), vec![Glyph { row: 2, col: 40, ch: '#' }]);
    assert_eq!(at(800_001), vec![]);
}

#[test]
fn segments_outside_terminal_are_not_drawn() {
    let b = LightningBolt::with_target(2, 40, 24, 80, 15, 0);
    assert_eq!(b.draw(10, 24, 40), vec![]);
    assert_eq!(b.draw(10, 2, 80), vec![]);
    assert_eq!(b.draw(10, 3, 41).len(), 1);
}

#[test]
fn rendering_twice_gives_the_same_glyphs() {
    let mut rng = StdRng::seed_from_u64(9);
    let mut b = LightningBolt::new(&mut rng, 1, 30, 24, 80, 0);
    for k in 1..8u64 {
        b.update(&mut rng, k * 2000);
    }
    let first = b.draw(20_000, 24, 80);
    let second = b.draw(20_000, 24, 80);
    assert_eq!(first, second);
    assert_eq!(first.len(), b.segments.len());
}

#[test]
fn bolt_is_alive_while_any_segment_is_lit() {
    let mut b = LightningBolt::with_target(2, 40, 24, 80, 15, 0);
    b.step_with(100_000, &vec![0], None);
    assert!(b.is_alive(800_000));
    // the seed has faded but the newer segment has not
    assert!(b.is_alive(800_001));
    assert!(b.is_alive(900_000));
    assert!(!b.is_alive(900_001));
}

#[test]
fn update_keeps_segments_and_never_regrows() {
    let mut rng = StdRng::seed_from_u64(21);
    for seed_col in [0, 40, 79] {
        let mut b = LightningBolt::new(&mut rng, 0, seed_col, 24, 80, 0);
        let mut stopped = false;
        for k in 1..200u64 {
            let before = b.segments.clone();
            let was_growing = b.growing;
            b.update(&mut rng, k * 1000);
            assert_eq!(b.segments[..before.len()], before[..]);
            if !was_growing {
                assert_eq!(b.segments.len(), before.len());
                assert!(!b.growing);
            }
            if b.growing {
                assert!(b.segments.len() <= b.target_length);
            }
            stopped |= !b.growing;
            for s in &b.segments {
                assert!(s.col >= 0 && s.col < 80 && s.row < 24);
            }
        }
        assert!(stopped);
    }
}

#[test]
fn seeded_bolt_stops_growing_within_target_steps() {
    let mut rng = StdRng::seed_from_u64(2024);
    let mut b = LightningBolt::with_target(2, 40, 24, 80, 15, 0);
    let delay = 2000u64;
    let mut stop_time = None;
    for k in 1..=15u64 {
        b.update(&mut rng, k * delay);
        if !b.growing {
            stop_time = Some(k * delay);
            break;
        }
    }
    let t = stop_time.expect("growth must stop");
    assert!(t <= 15 * delay);
    assert!(b.segments.len() >= 1);
    assert!(b.segments.len() <= 15 + 3);
}

#[test]
fn update_reports_full_decay() {
    let mut rng = StdRng::seed_from_u64(4);
    let mut b = LightningBolt::with_target(2, 40, 24, 80, 15, 0);
    b.growing = false;
    assert!(b.update(&mut rng, 800_000));
    assert!(!b.update(&mut rng, 800_001));
}
