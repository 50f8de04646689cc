use vstd::prelude::*;
use rand::rngs::StdRng;

use crate::Glyph;
use crate::constants::{
    CHANCE_SCALE,
    RAIN_BURST_DIVISOR_CALM, RAIN_BURST_DIVISOR_STORM, RAIN_CHANCE_CALM, RAIN_CHANCE_STORM,
    RAIN_GLYPH_COUNT, RAIN_MAX_SPEED_CALM, RAIN_MAX_SPEED_STORM, RAIN_MIN_SPEED, ROW_SCALE,
    rain_glyph, spec_rain_glyph,
};
use crate::random::{random_in, roll};

verus! {

/// A falling raindrop. Its row and speed are kept in thousandths of a row.
#[derive(Clone, Copy, Debug, PartialEq, Eq, Structural)]
pub struct Raindrop {
    pub x: i32,
    pub y: u64,
    pub speed: u64,
    pub glyph: char,
}

/// Every row that a terminal can have lies below this, in thousandths of a row.
pub open spec fn row_limit() -> int {
    0x8000_0000 * ROW_SCALE
}

/// A drop whose position and speed leave room for further ticks.
pub open spec fn drop_wf(d: Raindrop) -> bool {
    d.y < row_limit() && RAIN_MIN_SPEED <= d.speed <= RAIN_MAX_SPEED_STORM
}

/// A drop after one tick: moved down by its own speed.
pub open spec fn moved(d: Raindrop) -> Raindrop {
    Raindrop { y: (d.y + d.speed) as u64, ..d }
}

/// Whether a drop at `d.y` is still inside a terminal of `rows` rows.
pub open spec fn on_screen(d: Raindrop, rows: i32) -> bool {
    d.y < rows * ROW_SCALE
}

/// The population after one tick: every drop moved, those that left the
/// visible rows removed, the others kept in order.
pub open spec fn advance_drops(s: Seq<Raindrop>, rows: i32) -> Seq<Raindrop>
    decreases s.len(),
{
    if s.len() == 0 {
        seq![]
    } else {
        let rest = advance_drops(s.drop_last(), rows);
        if on_screen(moved(s.last()), rows) {
            rest.push(moved(s.last()))
        } else {
            rest
        }
    }
}

/// The glyphs of the drops on a terminal of `rows` rows, in drop order.
pub open spec fn drops_glyphs(s: Seq<Raindrop>, rows: i32) -> Seq<Glyph>
    decreases s.len(),
{
    if s.len() == 0 {
        seq![]
    } else {
        let rest = drops_glyphs(s.drop_last(), rows);
        let d = s.last();
        let row = d.y / ROW_SCALE;
        if row < rows {
            rest.push(Glyph { row: row as i32, col: d.x, ch: d.glyph })
        } else {
            rest
        }
    }
}

/// Fastest speed of a new drop.
pub open spec fn max_speed(storm: bool) -> int {
    if storm { RAIN_MAX_SPEED_STORM as int } else { RAIN_MAX_SPEED_CALM as int }
}

/// Chance per tick of a burst, in thousandths.
pub open spec fn rain_chance(storm: bool) -> int {
    if storm { RAIN_CHANCE_STORM as int } else { RAIN_CHANCE_CALM as int }
}

/// Most drops one burst may bring on a terminal `cols` wide.
pub open spec fn burst_cap(storm: bool, cols: i32) -> int {
    if storm { (cols / RAIN_BURST_DIVISOR_STORM) as int } else { (cols / RAIN_BURST_DIVISOR_CALM) as int }
}

/// A drop as a burst creates it: top row, a column of the terminal, a speed in
/// range and one of the rain glyphs.
pub open spec fn fresh_drop(d: Raindrop, storm: bool, cols: i32) -> bool {
    &&& 0 <= d.x < cols
    &&& d.y == 0
    &&& RAIN_MIN_SPEED <= d.speed <= max_speed(storm)
    &&& exists|k: int| 0 <= k < RAIN_GLYPH_COUNT && d.glyph == #[trigger] spec_rain_glyph(k)
}

/// The population of falling drops.
pub struct Rainfield {
    pub drops: Vec<Raindrop>,
}

impl Rainfield {
    pub open spec fn wf(&self) -> bool {
        forall|i: int| 0 <= i < self.drops@.len() ==> drop_wf(#[trigger] self.drops@[i])
    }

    pub fn new() -> (r: Rainfield)
        ensures
            r.wf(),
            r.drops@.len() == 0,
    {
        Rainfield { drops: Vec::new() }
    }

    /// Removes every drop.
    pub fn clear(&mut self)
        ensures
            final(self).wf(),
            final(self).drops@.len() == 0,
    {
        self.drops.clear();
    }

    /// With the chance of the current mode, appends a burst of new drops on a
    /// terminal `cols` wide; a burst holds from one drop up to its cap (none
    /// where the terminal is too narrow for a single one).
    pub fn spawn(&mut self, rng: &mut StdRng, storm: bool, cols: i32)
        requires
            old(self).wf(),
            cols >= 1,
        ensures
            final(self).wf(),
            old(self).drops@.is_prefix_of(final(self).drops@),
            final(self).drops@.len() <= old(self).drops@.len() + burst_cap(storm, cols),
            forall|i: int| old(self).drops@.len() <= i < final(self).drops@.len()
                ==> fresh_drop(#[trigger] final(self).drops@[i], storm, cols),
    {
        let chance_roll = roll(rng);
        self.spawn_with_roll(rng, storm, cols, chance_roll);
    }

    /// The burst of one tick, given its chance roll: where the roll is below
    /// the chance of the current mode and the terminal is wide enough for one
    /// drop, appends from one drop up to the cap; otherwise nothing changes.
    pub fn spawn_with_roll(&mut self, rng: &mut StdRng, storm: bool, cols: i32, chance_roll: i32)
        requires
            old(self).wf(),
            cols >= 1,
            0 <= chance_roll < CHANCE_SCALE,
        ensures
            final(self).wf(),
            old(self).drops@.is_prefix_of(final(self).drops@),
            final(self).drops@.len() <= old(self).drops@.len() + burst_cap(storm, cols),
            forall|i: int| old(self).drops@.len() <= i < final(self).drops@.len()
                ==> fresh_drop(#[trigger] final(self).drops@[i], storm, cols),
            chance_roll < rain_chance(storm) && burst_cap(storm, cols) >= 1
                ==> final(self).drops@.len() >= old(self).drops@.len() + 1,
            !(chance_roll < rain_chance(storm) && burst_cap(storm, cols) >= 1)
                ==> final(self).drops@ == old(self).drops@,
    {
        let ghost before = self.drops@;
        let chance = if storm { RAIN_CHANCE_STORM } else { RAIN_CHANCE_CALM };
        let cap = if storm { cols / RAIN_BURST_DIVISOR_STORM } else { cols / RAIN_BURST_DIVISOR_CALM };
        let top_speed = if storm { RAIN_MAX_SPEED_STORM } else { RAIN_MAX_SPEED_CALM };
        if chance_roll >= chance || cap < 1 {
            assert(before =~= self.drops@.subrange(0, before.len() as int));
            return;
        }
        let count = random_in(rng, 1, cap);
        let mut k: i32 = 0;
        while k < count
            invariant
                0 <= k <= count <= cap,
                cap == burst_cap(storm, cols),
                top_speed == max_speed(storm),
                cols >= 1,
                self.drops@.len() == before.len() + k,
                before =~= self.drops@.subrange(0, before.len() as int),
                forall|i: int| 0 <= i < before.len() ==> drop_wf(#[trigger] before[i]),
                forall|i: int| 0 <= i < self.drops@.len() ==> drop_wf(#[trigger] self.drops@[i]),
                forall|i: int| before.len() <= i < self.drops@.len() ==> fresh_drop(#[trigger] self.drops@[i], storm, cols),
            decreases count - k,
        {
            let x = random_in(rng, 0, cols - 1);
            let speed = random_in(rng, RAIN_MIN_SPEED, top_speed);
            let g = random_in(rng, 0, RAIN_GLYPH_COUNT - 1);
            let glyph = rain_glyph(g);
            let d = Raindrop { x, y: 0, speed: speed as u64, glyph };
            assert(fresh_drop(d, storm, cols));
            self.drops.push(d);
            k += 1;
        }
    }

    /// Moves every drop down by its speed and removes those that left the
    /// `rows` visible rows.
    pub fn advance(&mut self, rows: i32)
        requires
            old(self).wf(),
        ensures
            final(self).wf(),
            final(self).drops@ == advance_drops(old(self).drops@, rows),
    {
        let mut kept: Vec<Raindrop> = Vec::new();
        let mut i: usize = 0;
        while i < self.drops.len()
            invariant
                i <= self.drops@.len(),
                self.wf(),
                kept@ == advance_drops(self.drops@.take(i as int), rows),
                forall|j: int| 0 <= j < kept@.len() ==> drop_wf(#[trigger] kept@[j]) && on_screen(kept@[j], rows),
            decreases self.drops@.len() - i,
        {
            let d = self.drops[i];
            assert(self.drops@.take(i + 1).drop_last() =~= self.drops@.take(i as int));
            assert(drop_wf(self.drops@[i as int]));
            let m = Raindrop { y: d.y + d.speed, ..d };
            if (m.y as i64) < (rows as i64) * (ROW_SCALE as i64) {
                kept.push(m);
            }
            i += 1;
        }
        assert(self.drops@.take(i as int) =~= self.drops@);
        self.drops = kept;
    }

    /// The glyphs of the drops on a terminal of `rows` rows, one per drop
    /// whose row is inside it, in drop order.
    pub fn glyphs(&self, rows: i32) -> (r: Vec<Glyph>)
        requires
            self.wf(),
        ensures
            r@ == drops_glyphs(self.drops@, rows),
    {
        let mut r: Vec<Glyph> = Vec::new();
        let mut i: usize = 0;
        while i < self.drops.len()
            invariant
                i <= self.drops@.len(),
                self.wf(),
                r@ == drops_glyphs(self.drops@.take(i as int), rows),
            decreases self.drops@.len() - i,
        {
            let d = self.drops[i];
            assert(self.drops@.take(i + 1).drop_last() =~= self.drops@.take(i as int));
            assert(drop_wf(self.drops@[i as int]));
            let row = d.y / ROW_SCALE;
            if (row as i64) < rows as i64 {
                r.push(Glyph { row: row as i32, col: d.x, ch: d.glyph });
            }
            i += 1;
        }
        assert(self.drops@.take(i as int) =~= self.drops@);
        r
    }
}

/// Every tick moves each drop down by exactly its own speed, so its row
/// strictly increases while its column, speed and glyph stay; a drop is in
/// the next population exactly when its moved row is still visible.
pub proof fn lemma_rain_advance(s: Seq<Raindrop>, rows: i32)
    requires
        forall|j: int| 0 <= j < s.len() ==> drop_wf(#[trigger] s[j]),
    ensures
        forall|i: int| 0 <= i < advance_drops(s, rows).len() ==>
            exists|j: int| 0 <= j < s.len() && #[trigger] advance_drops(s, rows)[i] == moved(s[j])
                && s[j].y + s[j].speed == moved(s[j]).y,
        forall|j: int| 0 <= j < s.len() ==> #[trigger] moved(s[j]).y > s[j].y && moved(s[j]).speed == s[j].speed
            && moved(s[j]).x == s[j].x && moved(s[j]).glyph == s[j].glyph,
        forall|j: int| 0 <= j < s.len() && #[trigger] on_screen(moved(s[j]), rows) ==>
            advance_drops(s, rows).contains(moved(s[j])),
        forall|x: Raindrop| advance_drops(s, rows).contains(x) ==> on_screen(x, rows),
    decreases s.len(),
{
    if s.len() > 0 {
        assert forall|j: int| 0 <= j < s.drop_last().len() implies drop_wf(#[trigger] s.drop_last()[j]) by {
            assert(s.drop_last()[j] == s[j]);
        }
        lemma_rain_advance(s.drop_last(), rows);
        let rest = advance_drops(s.drop_last(), rows);
        let r = advance_drops(s, rows);
        assert forall|i: int| 0 <= i < r.len() implies
            exists|j: int| 0 <= j < s.len() && #[trigger] r[i] == moved(s[j]) && s[j].y + s[j].speed == moved(s[j]).y by {
            if i < rest.len() {
                assert(r[i] == rest[i]);
                let j = choose|j: int| 0 <= j < s.drop_last().len() && #[trigger] rest[i] == moved(s.drop_last()[j]) && s.drop_last()[j].y + s.drop_last()[j].speed == moved(s.drop_last()[j]).y;
                assert(s[j] == s.drop_last()[j]);
                assert(r[i] == moved(s[j]) && s[j].y + s[j].speed == moved(s[j]).y);
            } else {
                let j = s.len() - 1;
                assert(drop_wf(s[j]));
                assert(r[i] == moved(s[j]) && s[j].y + s[j].speed == moved(s[j]).y);
            }
        }
        assert forall|j: int| 0 <= j < s.len() && #[trigger] on_screen(moved(s[j]), rows) implies r.contains(moved(s[j])) by {
            if j < s.len() - 1 {
                assert(s[j] == s.drop_last()[j]);
                assert(on_screen(moved(s.drop_last()[j]), rows));
                let k = choose|k: int| 0 <= k < rest.len() && rest[k] == moved(s.drop_last()[j]);
                assert(r[k] == rest[k]);
            } else {
                assert(r[r.len() - 1] == moved(s[j]));
            }
        }
        assert forall|x: Raindrop| r.contains(x) implies on_screen(x, rows) by {
            let k = choose|k: int| 0 <= k < r.len() && r[k] == x;
            if k < rest.len() {
                assert(rest[k] == x);
            }
        }
    }
}

} // verus!
