use vstd::prelude::*;
use rand::rngs::StdRng;

use crate::Glyph;
use crate::constants::{CHANCE_SCALE, LIGHTNING_CHANCE, MAX_ACTIVE_BOLTS, UPDATE_INTERVAL_US};
use crate::lightning::{bolt_alive, lit_at, possible_step, segments_glyphs, BoltView, LightningBolt};
use crate::rain::{advance_drops, burst_cap, fresh_drop, Rainfield, Raindrop};
use crate::random::{random_in, roll};

verus! {

/// What a key press asks of the frame loop.
#[derive(Clone, Copy, Debug, PartialEq, Eq, Structural)]
pub enum KeyAction {
    Quit,
    ToggleStorm,
    Resize,
    Ignore,
}

/// The action of a typed character: `q`/`Q` quits, `t`/`T` toggles the storm,
/// anything else is ignored.
pub fn key_action(c: char) -> (r: KeyAction)
    ensures
        r == (if c == 'q' || c == 'Q' {
            KeyAction::Quit
        } else if c == 't' || c == 'T' {
            KeyAction::ToggleStorm
        } else {
            KeyAction::Ignore
        }),
{
    if c == 'q' || c == 'Q' {
        KeyAction::Quit
    } else if c == 't' || c == 'T' {
        KeyAction::ToggleStorm
    } else {
        KeyAction::Ignore
    }
}

/// How long to wait, in microseconds, before the next tick when `elapsed_us`
/// have passed since the previous one: the rest of the interval, or nothing.
pub fn pause_before_tick(elapsed_us: u64) -> (r: u64)
    ensures
        r == (if elapsed_us < UPDATE_INTERVAL_US { UPDATE_INTERVAL_US - elapsed_us } else { 0 }),
        elapsed_us + r >= UPDATE_INTERVAL_US,
{
    if elapsed_us < UPDATE_INTERVAL_US {
        UPDATE_INTERVAL_US - elapsed_us
    } else {
        0
    }
}

/// The views of a sequence of bolts.
pub open spec fn views(s: Seq<LightningBolt>) -> Seq<BoltView> {
    s.map_values(|b: LightningBolt| b@)
}

/// The bolts of `s` that are still lit at `now`, in order.
pub open spec fn keep_alive(s: Seq<BoltView>, now: u64) -> Seq<BoltView>
    decreases s.len(),
{
    if s.len() == 0 {
        seq![]
    } else {
        let rest = keep_alive(s.drop_last(), now);
        if bolt_alive(s.last(), now) {
            rest.push(s.last())
        } else {
            rest
        }
    }
}

/// All glyphs of a sequence of bolts, bolt after bolt.
pub open spec fn bolts_glyphs(s: Seq<LightningBolt>, now: u64, rows: i32, cols: i32) -> Seq<Glyph>
    decreases s.len(),
{
    if s.len() == 0 {
        seq![]
    } else {
        bolts_glyphs(s.drop_last(), now, rows, cols) + segments_glyphs(s.last().segments@, now, rows, cols)
    }
}

/// What one tick may make of the bolts `old`: `spawned` is `old` with at most
/// one new bolt (none without a storm), `stepped` is each of those after one
/// step, and `result` keeps those of `stepped` that are still lit.
pub open spec fn bolts_tick_outcome(
    old: Seq<LightningBolt>,
    storm: bool,
    spawned: Seq<LightningBolt>,
    stepped: Seq<BoltView>,
    now: u64,
    result: Seq<LightningBolt>,
) -> bool {
    &&& old.is_prefix_of(spawned)
    &&& spawned.len() <= old.len() + 1
    &&& (!storm ==> spawned == old)
    &&& stepped.len() == spawned.len()
    &&& forall|k: int| 0 <= k < stepped.len() ==> possible_step(spawned[k]@, now, #[trigger] stepped[k])
    &&& views(result) == keep_alive(stepped, now)
}

/// Everything the frame loop owns: the rain, the active bolts and the storm flag.
pub struct Simulation {
    pub rain: Rainfield,
    pub bolts: Vec<LightningBolt>,
    pub thunderstorm: bool,
}

impl Simulation {
    pub open spec fn wf(&self) -> bool {
        &&& self.rain.wf()
        &&& forall|i: int| 0 <= i < self.bolts@.len() ==> (#[trigger] self.bolts@[i]).wf()
    }

    /// No bolt has grown later than `now`.
    pub open spec fn ready_at(&self, now: u64) -> bool {
        forall|i: int| 0 <= i < self.bolts@.len() ==> (#[trigger] self.bolts@[i]).last_growth <= now
    }

    /// A calm sky without rain or bolts.
    pub fn new() -> (r: Simulation)
        ensures
            r.wf(),
            r.rain.drops@.len() == 0,
            r.bolts@.len() == 0,
            !r.thunderstorm,
    {
        Simulation { rain: Rainfield::new(), bolts: Vec::new(), thunderstorm: false }
    }

    /// Applies a key action; returns whether the loop goes on. A resize
    /// empties both populations, a toggle flips the storm flag.
    pub fn apply(&mut self, action: KeyAction) -> (r: bool)
        requires
            old(self).wf(),
        ensures
            final(self).wf(),
            r == (action != KeyAction::Quit),
            action == KeyAction::Resize ==> final(self).rain.drops@.len() == 0 && final(self).bolts@.len() == 0,
            action != KeyAction::Resize ==> final(self).rain.drops@ == old(self).rain.drops@ && final(self).bolts@ == old(self).bolts@,
            final(self).thunderstorm == (if action == KeyAction::ToggleStorm { !old(self).thunderstorm } else { old(self).thunderstorm }),
    {
        match action {
            KeyAction::Quit => false,
            KeyAction::ToggleStorm => {
                self.thunderstorm = !self.thunderstorm;
                true
            },
            KeyAction::Resize => {
                self.rain.clear();
                self.bolts.clear();
                true
            },
            KeyAction::Ignore => true,
        }
    }

    /// During a storm, with fewer than the most bolts alive and on a lucky roll,
    /// adds one bolt seeded in the top fifth of the rows and the middle half
    /// of the columns. A terminal under three rows has no room for one.
    pub fn maybe_spawn_bolt(&mut self, rng: &mut StdRng, now: u64, rows: i32, cols: i32)
        requires
            old(self).wf(),
            old(self).ready_at(now),
            cols >= 0,
        ensures
            final(self).wf(),
            final(self).ready_at(now),
            final(self).rain.drops@ == old(self).rain.drops@,
            final(self).thunderstorm == old(self).thunderstorm,
            old(self).bolts@.is_prefix_of(final(self).bolts@),
            final(self).bolts@.len() <= old(self).bolts@.len() + 1,
            !old(self).thunderstorm || old(self).bolts@.len() >= MAX_ACTIVE_BOLTS || rows < 3
                ==> final(self).bolts@ == old(self).bolts@,
            final(self).bolts@.len() > old(self).bolts@.len() ==> {
                let b = final(self).bolts@.last()@;
                let seed = b.segments[0];
                &&& b.segments.len() == 1
                &&& 0 <= seed.row <= rows / 5
                &&& cols / 4 <= seed.col <= 3 * cols / 4
                &&& seed.created == now
                &&& b.last_growth == now
                &&& b.growing
                &&& b.max_y == rows
                &&& b.max_x == cols
                &&& rows / 2 <= b.target_length <= rows - 2
            },
    {
        if self.thunderstorm && self.bolts.len() < MAX_ACTIVE_BOLTS {
            let chance_roll = roll(rng);
            self.maybe_spawn_bolt_with_roll(rng, now, rows, cols, chance_roll);
        } else {
            assert(self.bolts@ =~= self.bolts@.subrange(0, self.bolts@.len() as int));
        }
    }

    /// The bolt spawn of one tick, given its chance roll: a bolt is added
    /// exactly when the storm is on, fewer than the most bolts are alive, the
    /// terminal has at least three rows and the roll is below the chance.
    pub fn maybe_spawn_bolt_with_roll(&mut self, rng: &mut StdRng, now: u64, rows: i32, cols: i32, chance_roll: i32)
        requires
            old(self).wf(),
            old(self).ready_at(now),
            cols >= 0,
            0 <= chance_roll < CHANCE_SCALE,
        ensures
            final(self).wf(),
            final(self).ready_at(now),
            final(self).rain.drops@ == old(self).rain.drops@,
            final(self).thunderstorm == old(self).thunderstorm,
            old(self).bolts@.is_prefix_of(final(self).bolts@),
            final(self).bolts@.len() <= old(self).bolts@.len() + 1,
            !old(self).thunderstorm || old(self).bolts@.len() >= MAX_ACTIVE_BOLTS || rows < 3
                ==> final(self).bolts@ == old(self).bolts@,
            final(self).bolts@.len() > old(self).bolts@.len() ==> {
                let b = final(self).bolts@.last()@;
                let seed = b.segments[0];
                &&& b.segments.len() == 1
                &&& 0 <= seed.row <= rows / 5
                &&& cols / 4 <= seed.col <= 3 * cols / 4
                &&& seed.created == now
                &&& b.last_growth == now
                &&& b.growing
                &&& b.max_y == rows
                &&& b.max_x == cols
                &&& rows / 2 <= b.target_length <= rows - 2
            },
            final(self).bolts@.len() == old(self).bolts@.len() + 1 <==> (old(self).thunderstorm
                && old(self).bolts@.len() < MAX_ACTIVE_BOLTS && rows >= 3 && chance_roll < LIGHTNING_CHANCE),
    {
        let ghost before = self.bolts@;
        if self.thunderstorm && self.bolts.len() < MAX_ACTIVE_BOLTS && rows >= 3 && chance_roll < LIGHTNING_CHANCE {
            let lo: i64 = cols as i64 / 4;
            let hi: i64 = 3 * (cols as i64) / 4;
            let start_col = random_in(rng, lo as i32, hi as i32);
            let start_row = random_in(rng, 0, rows / 5);
            let bolt = LightningBolt::new(rng, start_row, start_col, rows, cols, now);
            self.bolts.push(bolt);
            assert(before =~= self.bolts@.subrange(0, before.len() as int));
            assert(self.bolts@.last() == bolt);
            assert(forall|i: int| 0 <= i < before.len() ==> self.bolts@[i] == before[i]);
        } else {
            assert(before =~= self.bolts@.subrange(0, before.len() as int));
        }
    }

    /// Steps every bolt once at `now` and removes those with no segment left lit.
    pub fn advance_bolts(&mut self, rng: &mut StdRng, now: u64)
        requires
            old(self).wf(),
            old(self).ready_at(now),
        ensures
            final(self).wf(),
            final(self).ready_at(now),
            final(self).rain.drops@ == old(self).rain.drops@,
            final(self).thunderstorm == old(self).thunderstorm,
            final(self).bolts@.len() <= old(self).bolts@.len(),
            exists|stepped: Seq<BoltView>| {
                &&& stepped.len() == old(self).bolts@.len()
                &&& forall|k: int| 0 <= k < stepped.len() ==> possible_step(old(self).bolts@[k]@, now, #[trigger] stepped[k])
                &&& views(final(self).bolts@) == keep_alive(stepped, now)
            },
    {
        let ghost before = self.bolts@;
        let mut kept: Vec<LightningBolt> = Vec::new();
        let ghost mut stepped: Seq<BoltView> = seq![];
        while self.bolts.len() > 0
            invariant
                stepped.len() <= before.len(),
                self.bolts@ == before.subrange(stepped.len() as int, before.len() as int),
                forall|k: int| 0 <= k < before.len() ==> (#[trigger] before[k]).wf() && before[k].last_growth <= now,
                forall|k: int| 0 <= k < stepped.len() ==> possible_step(before[k]@, now, #[trigger] stepped[k]),
                views(kept@) == keep_alive(stepped, now),
                forall|k: int| 0 <= k < kept@.len() ==> (#[trigger] kept@[k]).wf() && kept@[k].last_growth <= now,
                self.rain.wf(),
                self.rain.drops@ == old(self).rain.drops@,
                self.thunderstorm == old(self).thunderstorm,
            decreases self.bolts@.len(),
        {
            let ghost idx = stepped.len() as int;
            assert(self.bolts@[0] == before[idx]);
            let mut b = self.bolts.remove(0);
            let alive = b.update(rng, now);
            proof {
                let old_stepped = stepped;
                stepped = stepped.push(b@);
                assert(stepped.drop_last() =~= old_stepped);
                assert(self.bolts@ =~= before.subrange(stepped.len() as int, before.len() as int));
            }
            if alive {
                let ghost old_kept = kept@;
                kept.push(b);
                assert(views(kept@) =~= views(old_kept).push(b@));
            }
        }
        self.bolts = kept;
        assert(stepped.len() == before.len());
        proof {
            lemma_keep_alive_len(stepped, now);
            assert(views(self.bolts@).len() == self.bolts@.len());
        }
    }

    /// One tick at `now` on a `rows` by `cols` terminal: maybe a new bolt,
    /// every bolt stepped and the faded ones removed, maybe a burst of rain,
    /// then every drop moved and those that left the screen removed.
    pub fn tick(&mut self, rng: &mut StdRng, now: u64, rows: i32, cols: i32)
        requires
            old(self).wf(),
            old(self).ready_at(now),
            cols >= 1,
        ensures
            final(self).wf(),
            final(self).ready_at(now),
            final(self).thunderstorm == old(self).thunderstorm,
            !old(self).thunderstorm ==> final(self).bolts@.len() <= old(self).bolts@.len(),
            exists|spawned: Seq<LightningBolt>, stepped: Seq<BoltView>|
                #[trigger] bolts_tick_outcome(old(self).bolts@, old(self).thunderstorm, spawned, stepped, now, final(self).bolts@),
            exists|spawned: Seq<Raindrop>| {
                &&& old(self).rain.drops@.is_prefix_of(spawned)
                &&& spawned.len() <= old(self).rain.drops@.len() + burst_cap(old(self).thunderstorm, cols)
                &&& forall|i: int| old(self).rain.drops@.len() <= i < spawned.len()
                    ==> fresh_drop(#[trigger] spawned[i], old(self).thunderstorm, cols)
                &&& final(self).rain.drops@ == advance_drops(spawned, rows)
            },
    {
        let ghost before = self.bolts@;
        self.maybe_spawn_bolt(rng, now, rows, cols);
        let ghost spawned_bolts = self.bolts@;
        self.advance_bolts(rng, now);
        let ghost stepped = choose|stepped: Seq<BoltView>| {
                &&& stepped.len() == spawned_bolts.len()
                &&& forall|k: int| 0 <= k < stepped.len() ==> possible_step(spawned_bolts[k]@, now, #[trigger] stepped[k])
                &&& views(self.bolts@) == keep_alive(stepped, now)
            };
        let ghost after_bolts = self.bolts@;
        assert(bolts_tick_outcome(before, old(self).thunderstorm, spawned_bolts, stepped, now, after_bolts));
        let storm = self.thunderstorm;
        self.rain.spawn(rng, storm, cols);
        let ghost spawned = self.rain.drops@;
        self.rain.advance(rows);
        assert(self.rain.drops@ == advance_drops(spawned, rows));
        assert(self.bolts@ == after_bolts);
        assert(bolts_tick_outcome(before, old(self).thunderstorm, spawned_bolts, stepped, now, self.bolts@));
    }

    /// All glyphs of the bolts at `now`, bolt after bolt.
    pub fn lightning_glyphs(&self, now: u64, rows: i32, cols: i32) -> (r: Vec<Glyph>)
        requires
            self.wf(),
            self.ready_at(now),
        ensures
            r@ == bolts_glyphs(self.bolts@, now, rows, cols),
    {
        let mut r: Vec<Glyph> = Vec::new();
        let mut i: usize = 0;
        while i < self.bolts.len()
            invariant
                i <= self.bolts@.len(),
                self.wf(),
                self.ready_at(now),
                r@ == bolts_glyphs(self.bolts@.take(i as int), now, rows, cols),
            decreases self.bolts@.len() - i,
        {
            assert(self.bolts@.take(i + 1).drop_last() =~= self.bolts@.take(i as int));
            assert(self.bolts@.take(i + 1).last() == self.bolts@[i as int]);
            let mut g = self.bolts[i].draw(now, rows, cols);
            r.append(&mut g);
            i += 1;
        }
        assert(self.bolts@.take(i as int) =~= self.bolts@);
        r
    }

    /// The glyphs of the rain on a terminal of `rows` rows.
    pub fn rain_glyphs(&self, rows: i32) -> (r: Vec<Glyph>)
        requires
            self.wf(),
        ensures
            r@ == crate::rain::drops_glyphs(self.rain.drops@, rows),
    {
        self.rain.glyphs(rows)
    }
}

/// Filtering never lengthens a sequence of bolts.
proof fn lemma_keep_alive_len(s: Seq<BoltView>, now: u64)
    ensures
        keep_alive(s, now).len() <= s.len(),
    decreases s.len(),
{
    if s.len() > 0 {
        lemma_keep_alive_len(s.drop_last(), now);
    }
}

/// A stepped bolt leaves the container exactly when every one of its segments
/// has outlived the lifespan; a bolt with any segment still lit stays.
pub proof fn lemma_removal_iff_expired(s: Seq<BoltView>, now: u64, k: int)
    requires
        0 <= k < s.len(),
    ensures
        keep_alive(s, now).contains(s[k])
            <==> exists|i: int| 0 <= i < s[k].segments.len() && lit_at(#[trigger] s[k].segments[i], now),
    decreases s.len(),
{
    lemma_kept_are_alive(s, now);
    if k < s.len() - 1 {
        lemma_removal_iff_expired(s.drop_last(), now, k);
        assert(s.drop_last()[k] == s[k]);
        let rest = keep_alive(s.drop_last(), now);
        if rest.contains(s[k]) {
            let j = choose|j: int| 0 <= j < rest.len() && rest[j] == s[k];
            assert(keep_alive(s, now)[j] == rest[j]);
        }
    } else {
        if bolt_alive(s[k], now) {
            let r = keep_alive(s, now);
            assert(r[r.len() - 1] == s[k]);
        }
    }
}

/// Every bolt kept by the filter is still lit.
proof fn lemma_kept_are_alive(s: Seq<BoltView>, now: u64)
    ensures
        forall|x: BoltView| keep_alive(s, now).contains(x) ==> bolt_alive(x, now),
    decreases s.len(),
{
    if s.len() > 0 {
        lemma_kept_are_alive(s.drop_last(), now);
        let rest = keep_alive(s.drop_last(), now);
        let r = keep_alive(s, now);
        assert forall|x: BoltView| r.contains(x) implies bolt_alive(x, now) by {
            let j = choose|j: int| 0 <= j < r.len() && r[j] == x;
            if j < rest.len() {
                assert(rest[j] == x);
            }
        }
    }
}

} // verus!
