use rand::rngs::StdRng;
use rand::SeedableRng;
use terminal_rain_lightning::frame::{key_action, pause_before_tick, KeyAction, Simulation};
use terminal_rain_lightning::lightning::LightningBolt;
use terminal_rain_lightning::rain::Raindrop;
use terminal_rain_lightning::Glyph;

#[test]
fn keys_map_to_actions() {
    assert_eq!(key_action('q'), KeyAction::Quit);
    assert_eq!(key_action('Q'), KeyAction::Quit);
    assert_eq!(key_action('t'), KeyAction::ToggleStorm);
    assert_eq!(key_action('T'), KeyAction::ToggleStorm);
    assert_eq!(key_action('x'), KeyAction::Ignore);
    assert_eq!(key_action(' '), KeyAction::Ignore);
}

#[test]
fn pacer_fills_the_rest_of_the_interval() {
    assert_eq!(pause_before_tick(0), 15_000);
    assert_eq!(pause_before_tick(5_000), 10_000);
    assert_eq!(pause_before_tick(15_000), 0);
    assert_eq!(pause_before_tick(40_000), 0);
}

#[test]
fn calm_sky_never_spawns_lightning() {
    let mut rng = StdRng::seed_from_u64(77);
    let mut sim = Simulation::new();
    let mut now = 0u64;
    let mut saw_rain = false;
    for _ in 0..1000 {
        now += 15_000;
        sim.tick(&mut rng, now, 24, 80);
        assert!(sim.bolts.is_empty());
        saw_rain |= !sim.rain.drops.is_empty();
    }
    assert!(saw_rain);
}

#[test]
fn storm_spawns_bolts_in_the_upper_middle_band() {
    let mut rng = StdRng::seed_from_u64(8);
    let mut sim = Simulation::new();
    assert!(sim.apply(KeyAction::ToggleStorm));
    assert!(sim.thunderstorm);
    let mut spawned = 0;
    for k in 0..5000u64 {
        let before = sim.bolts.len();
        sim.maybe_spawn_bolt(&mut rng, k, 24, 80);
        assert!(sim.bolts.len() <= 3);
        if sim.bolts.len() > before {
            spawned += 1;
            let b = sim.bolts.last().unwrap();
            assert_eq!(b.segments.len(), 1);
            assert!(b.segments[0].row >= 0 && b.segments[0].row <= 4);
            assert!(b.segments[0].col >= 20 && b.segments[0].col <= 60);
            assert!(b.target_length >= 12 && b.target_length <= 22);
        }
    }
    assert_eq!(spawned, 3);
}

#[test]
fn tiny_terminal_gets_no_bolt() {
    let mut rng = StdRng::seed_from_u64(8);
    let mut sim = Simulation::new();
    sim.apply(KeyAction::ToggleStorm);
    for k in 0..5000u64 {
        sim.maybe_spawn_bolt(&mut rng, k, 2, 80);
    }
    assert!(sim.bolts.is_empty());
}

#[test]
fn resize_clears_both_populations() {
    let mut rng = StdRng::seed_from_u64(12);
    let mut sim = Simulation::new();
    sim.apply(KeyAction::ToggleStorm);
    let mut now = 0u64;
    for _ in 0..50 {
        now += 15_000;
        sim.tick(&mut rng, now, 24, 80);
    }
    sim.bolts.push(LightningBolt::with_target(1, 40, 24, 80, 10, now));
    sim.rain.drops.push(Raindrop { x: 1, y: 0, speed: 500, glyph: '|' });
    assert!(sim.apply(KeyAction::Resize));
    assert!(sim.bolts.is_empty());
    assert!(sim.rain.drops.is_empty());
    assert!(sim.thunderstorm);
}

#[test]
fn quit_stops_the_loop_and_keeps_state() {
    let mut sim = Simulation::new();
    sim.rain.drops.push(Raindrop { x: 1, y: 0, speed: 500, glyph: '|' });
    assert!(!sim.apply(KeyAction::Quit));
    assert_eq!(sim.rain.drops.len(), 1);
    assert!(sim.apply(KeyAction::Ignore));
    assert_eq!(sim.rain.drops.len(), 1);
}

#[test]
fn bolt_is_removed_only_when_every_segment_faded() {
    let mut rng = StdRng::seed_from_u64(6);
    let mut sim = Simulation::new();
    let mut old = LightningBolt::with_target(1, 10, 24, 80, 10, 0);
    old.step_with(500_000, &vec![0], None);
    old.growing = false;
    let mut faded = LightningBolt::with_target(1, 50, 24, 80, 10, 0);
    faded.growing = false;
    sim.bolts.push(old);
    sim.bolts.push(faded);
    sim.advance_bolts(&mut rng, 800_000);
    assert_eq!(sim.bolts.len(), 2);
    sim.advance_bolts(&mut rng, 800_001);
    assert_eq!(sim.bolts.len(), 1);
    assert_eq!(sim.bolts[0].segments[0].col, 10);
    sim.advance_bolts(&mut rng, 1_300_000);
    assert_eq!(sim.bolts.len(), 1);
    sim.advance_bolts(&mut rng, 1_300_001);
    assert!(sim.bolts.is_empty());
}

#[test]
fn lightning_glyphs_list_bolts_in_order() {
    let mut sim = Simulation::new();
    sim.bolts.push(LightningBolt::with_target(1, 10, 24, 80, 10, 0));
    sim.bolts.push(LightningBolt::with_target(3, 50, 24, 80, 10, 0));
    let g = sim.lightning_glyphs(300_000, 24, 80);
    assert_eq!(g, vec![Glyph { row: 1, col: 10, ch: '+' }, Glyph { row: 3, col: 50, ch: '+' }]);
}

#[test]
fn storm_rain_is_faster_and_denser() {
    let mut rng = StdRng::seed_from_u64(31);
    let mut sim = Simulation::new();
    sim.apply(KeyAction::ToggleStorm);
    let mut now = 0u64;
    let mut fastest = 0u64;
    for _ in 0..300 {
        now += 15_000;
        sim.tick(&mut rng, now, 24, 80);
        for d in &sim.rain.drops {
            assert!(d.y < 24_000);
            fastest = fastest.max(d.speed);
        }
    }
    assert!(fastest > 600);
    let glyphs = sim.rain_glyphs(24);
    assert_eq!(glyphs.len(), sim.rain.drops.len());
}

#[test]
fn winning_roll_spawns_a_bolt_only_in_a_storm() {
    let mut rng = StdRng::seed_from_u64(40);
    let mut sim = Simulation::new();
    sim.maybe_spawn_bolt_with_roll(&mut rng, 0, 24, 80, 0);
    assert!(sim.bolts.is_empty());
    sim.apply(KeyAction::ToggleStorm);
    sim.maybe_spawn_bolt_with_roll(&mut rng, 0, 24, 80, 5);
    assert!(sim.bolts.is_empty());
    sim.maybe_spawn_bolt_with_roll(&mut rng, 0, 24, 80, 4);
    assert_eq!(sim.bolts.len(), 1);
    sim.maybe_spawn_bolt_with_roll(&mut rng, 0, 2, 80, 0);
    assert_eq!(sim.bolts.len(), 1);
    sim.maybe_spawn_bolt_with_roll(&mut rng, 1, 24, 80, 0);
    sim.maybe_spawn_bolt_with_roll(&mut rng, 2, 24, 80, 0);
    assert_eq!(sim.bolts.len(), 3);
    sim.maybe_spawn_bolt_with_roll(&mut rng, 3, 24, 80, 0);
    assert_eq!(sim.bolts.len(), 3);
}
