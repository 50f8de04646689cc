use vstd::prelude::*;

verus! {

/// Fixed interval between two simulation steps, in microseconds.
pub const UPDATE_INTERVAL_US: u64 = 15_000;

/// Chances are written in thousandths: a roll drawn uniformly from
/// `0..=CHANCE_SCALE - 1` succeeds when it is below the chance.
pub const CHANCE_SCALE: i32 = 1000;

/// Chance per tick that a new bolt appears while the storm is on.
pub const LIGHTNING_CHANCE: i32 = 5;

/// Most bolts alive at once.
pub const MAX_ACTIVE_BOLTS: usize = 3;

/// Least time between two growth steps of one bolt, in microseconds.
pub const LIGHTNING_GROWTH_DELAY_US: u64 = 2_000;

/// A growth step may add up to this many extra zig-zag segments.
pub const LIGHTNING_MAX_BRANCHES: i32 = 2;

/// Chance that a growth step zig-zags over several segments.
pub const LIGHTNING_BRANCH_CHANCE: i32 = 300;

/// Chance that a growth step adds a fork beside the primary path.
pub const FORK_CHANCE: i32 = 150;

/// Widest horizontal offset of a fork from the growth front.
pub const FORK_HORIZONTAL_SPREAD: i32 = 3;

/// Widest horizontal offset of one zig-zag step.
pub const ZIGZAG_SPREAD: i32 = 2;

/// How long a lit segment stays visible, in microseconds.
pub const SEGMENT_LIFESPAN_US: u64 = 800_000;

/// Rain positions and speeds are kept in thousandths of a row.
pub const ROW_SCALE: u64 = 1000;

/// Chance per tick of a burst of new drops, calm and stormy.
pub const RAIN_CHANCE_CALM: i32 = 300;
pub const RAIN_CHANCE_STORM: i32 = 500;

/// A burst holds at most `cols / divisor` drops, calm and stormy.
pub const RAIN_BURST_DIVISOR_CALM: i32 = 15;
pub const RAIN_BURST_DIVISOR_STORM: i32 = 8;

/// Drop speeds, in thousandths of a row per tick.
pub const RAIN_MIN_SPEED: i32 = 300;
pub const RAIN_MAX_SPEED_CALM: i32 = 600;
pub const RAIN_MAX_SPEED_STORM: i32 = 1000;

/// Number of glyphs a raindrop may be drawn with.
pub const RAIN_GLYPH_COUNT: i32 = 3;

/// The glyphs a raindrop may be drawn with, by index.
pub open spec fn spec_rain_glyph(i: int) -> char {
    if i == 0 {
        '|'
    } else if i == 1 {
        '.'
    } else {
        '`'
    }
}

/// The glyph of index `i` (`0` to `RAIN_GLYPH_COUNT - 1`).
pub fn rain_glyph(i: i32) -> (r: char)
    requires
        0 <= i < RAIN_GLYPH_COUNT,
    ensures
        r == spec_rain_glyph(i as int),
{
    if i == 0 {
        '|'
    } else if i == 1 {
        '.'
    } else {
        '`'
    }
}

} // verus!
