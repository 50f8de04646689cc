use vstd::prelude::*;
use rand::rngs::StdRng;

use crate::Glyph;
use crate::constants::{
    FORK_CHANCE, FORK_HORIZONTAL_SPREAD, LIGHTNING_BRANCH_CHANCE, LIGHTNING_GROWTH_DELAY_US,
    LIGHTNING_MAX_BRANCHES, SEGMENT_LIFESPAN_US, ZIGZAG_SPREAD,
};
use crate::random::{random_in, roll};

verus! {

/// One lit cell of a bolt, with the time (in microseconds) it was lit.
#[derive(Clone, Copy, Debug, PartialEq, Eq, Structural)]
pub struct LightningSegment {
    pub row: i32,
    pub col: i32,
    pub created: u64,
}

/// A lightning bolt: it grows downwards from a seed segment while `growing`,
/// then its segments fade out one by one.
pub struct LightningBolt {
    /// Lit cells in the order they were added; the last one is the growth front.
    pub segments: Vec<LightningSegment>,
    /// Time of the latest growth step (or of creation), in microseconds.
    pub last_growth: u64,
    pub growing: bool,
    /// Terminal height and width the bolt was created for.
    pub max_y: i32,
    pub max_x: i32,
    pub target_length: usize,
}

/// The mathematical state of a bolt.
pub struct BoltView {
    pub segments: Seq<LightningSegment>,
    pub last_growth: u64,
    pub growing: bool,
    pub max_y: i32,
    pub max_x: i32,
    pub target_length: usize,
}

impl View for LightningBolt {
    type V = BoltView;

    open spec fn view(&self) -> BoltView {
        BoltView {
            segments: self.segments@,
            last_growth: self.last_growth,
            growing: self.growing,
            max_y: self.max_y,
            max_x: self.max_x,
            target_length: self.target_length,
        }
    }
}

/// A well-formed bolt has a growth front, no segment lit after its latest
/// growth step, and while growing it has not gone past its target length.
pub open spec fn bolt_wf(v: BoltView) -> bool {
    &&& v.segments.len() >= 1
    &&& forall|i: int| 0 <= i < v.segments.len() ==> (#[trigger] v.segments[i]).created <= v.last_growth
    &&& v.growing ==> v.segments.len() <= v.target_length
}

/// `v` clamped to the columns `0..max_x` (to `0` where there are none).
pub open spec fn clamp_col(v: int, max_x: int) -> int {
    let m = if v < max_x - 1 { v } else { max_x - 1 };
    if m > 0 { m } else { 0 }
}

/// The row below `row`, clamped to the last row.
pub open spec fn next_row(row: int, max_y: int) -> int {
    if row + 1 < max_y - 1 { row + 1 } else { max_y - 1 }
}

/// Column of the zig-zag after its first `k` steps from column `start`.
pub open spec fn zig_col(start: int, offs: Seq<i32>, max_x: int, k: nat) -> int
    decreases k,
{
    if k == 0 {
        start
    } else {
        clamp_col(zig_col(start, offs, max_x, (k - 1) as nat) + offs[k - 1], max_x)
    }
}

/// The first `n` zig-zag segments grown from `front`, lit at `now`.
pub open spec fn zig_segments(front: LightningSegment, offs: Seq<i32>, v: BoltView, now: u64, n: nat) -> Seq<LightningSegment> {
    Seq::new(n, |j: int| LightningSegment {
        row: next_row(front.row as int, v.max_y as int) as i32,
        col: zig_col(front.col as int, offs, v.max_x as int, (j + 1) as nat) as i32,
        created: now,
    })
}

/// The fork segment beside the zig-zag, where a fork is drawn and its column
/// differs from the zig-zag's last column.
pub open spec fn fork_segments(front: LightningSegment, offs: Seq<i32>, fork: Option<i32>, v: BoltView, now: u64) -> Seq<LightningSegment> {
    match fork {
        Some(o) => {
            let fx = clamp_col(front.col + o, v.max_x as int);
            if fx != zig_col(front.col as int, offs, v.max_x as int, offs.len()) {
                seq![LightningSegment {
                    row: next_row(front.row as int, v.max_y as int) as i32,
                    col: fx as i32,
                    created: now,
                }]
            } else {
                seq![]
            }
        },
        None => seq![],
    }
}

/// Whether the growth front may still grow: below target and above the last row.
pub open spec fn can_extend(v: BoltView) -> bool {
    v.segments.len() < v.target_length && v.segments.last().row < v.max_y - 1
}

/// Segments after one growth attempt with zig-zag offsets `offs` and fork offset `fork`.
pub open spec fn grown_segments(v: BoltView, now: u64, offs: Seq<i32>, fork: Option<i32>) -> Seq<LightningSegment> {
    let front = v.segments.last();
    if can_extend(v) {
        v.segments + zig_segments(front, offs, v, now, offs.len()) + fork_segments(front, offs, fork, v, now)
    } else {
        v.segments
    }
}

/// Whether a growth step is due at `now`.
pub open spec fn growth_due(v: BoltView, now: u64) -> bool {
    v.growing && now - v.last_growth >= LIGHTNING_GROWTH_DELAY_US
}

/// The bolt after one tick at `now`, given the random choices of that tick.
/// Growth stops when nothing was added, the target length is reached, or the
/// front was already on the last row.
pub open spec fn step(v: BoltView, now: u64, offs: Seq<i32>, fork: Option<i32>) -> BoltView {
    if growth_due(v, now) {
        let segs = grown_segments(v, now, offs, fork);
        let added = segs.len() > v.segments.len();
        BoltView {
            segments: segs,
            last_growth: now,
            growing: added && segs.len() < v.target_length && v.segments.last().row < v.max_y - 1,
            ..v
        }
    } else {
        v
    }
}

/// The random choices of one growth step lie in their ranges.
pub open spec fn draws_in_range(offs: Seq<i32>, fork: Option<i32>) -> bool {
    &&& 1 <= offs.len() <= LIGHTNING_MAX_BRANCHES + 1
    &&& forall|i: int| 0 <= i < offs.len() ==> -ZIGZAG_SPREAD <= #[trigger] offs[i] <= ZIGZAG_SPREAD
    &&& (fork matches Some(o) ==> -FORK_HORIZONTAL_SPREAD <= o <= FORK_HORIZONTAL_SPREAD)
}

/// `w` is what one tick at `now` may make of `v`, for some random choices in range.
pub open spec fn possible_step(v: BoltView, now: u64, w: BoltView) -> bool {
    exists|offs: Seq<i32>, fork: Option<i32>| draws_in_range(offs, fork) && w == #[trigger] step(v, now, offs, fork)
}

/// A segment is still lit at `now` while its age does not exceed the lifespan.
pub open spec fn lit_at(s: LightningSegment, now: u64) -> bool {
    now - s.created <= SEGMENT_LIFESPAN_US
}

/// A bolt stays while at least one of its segments is still lit.
pub open spec fn bolt_alive(v: BoltView, now: u64) -> bool {
    exists|i: int| 0 <= i < v.segments.len() && lit_at(#[trigger] v.segments[i], now)
}

/// Glyph by age: brightest for the first third of the lifespan, then medium,
/// then dimmest.
pub open spec fn age_glyph(age: int) -> char {
    if age * 100 < 33 * SEGMENT_LIFESPAN_US {
        '*'
    } else if age * 100 < 66 * SEGMENT_LIFESPAN_US {
        '+'
    } else {
        '#'
    }
}

/// What a segment shows at `now` on a `rows` by `cols` terminal, if anything.
pub open spec fn segment_glyph(s: LightningSegment, now: u64, rows: i32, cols: i32) -> Option<Glyph> {
    if lit_at(s, now) && 0 <= s.row < rows && 0 <= s.col < cols {
        Some(Glyph { row: s.row, col: s.col, ch: age_glyph(now - s.created) })
    } else {
        None
    }
}

/// The glyphs of `segs` at `now`, in segment order.
pub open spec fn segments_glyphs(segs: Seq<LightningSegment>, now: u64, rows: i32, cols: i32) -> Seq<Glyph>
    decreases segs.len(),
{
    if segs.len() == 0 {
        seq![]
    } else {
        let rest = segments_glyphs(segs.drop_last(), now, rows, cols);
        match segment_glyph(segs.last(), now, rows, cols) {
            Some(g) => rest.push(g),
            None => rest,
        }
    }
}

fn clamp_column(v: i64, max_x: i32) -> (r: i32)
    ensures
        r == clamp_col(v as int, max_x as int),
{
    let m: i64 = if v < max_x as i64 - 1 { v } else { max_x as i64 - 1 };
    if m > 0 { m as i32 } else { 0 }
}

fn row_below(row: i32, max_y: i32) -> (r: i32)
    requires
        row < max_y - 1,
    ensures
        r == next_row(row as int, max_y as int),
{
    row + 1
}

impl LightningBolt {
    pub open spec fn wf(&self) -> bool {
        bolt_wf(self@)
    }

    /// A bolt with one seed segment at `(start_row, start_col)` lit at `now`,
    /// growing towards `target_length` segments.
    pub fn with_target(start_row: i32, start_col: i32, max_y: i32, max_x: i32, target_length: usize, now: u64) -> (r: LightningBolt)
        requires
            target_length >= 1,
        ensures
            r.wf(),
            r@ == (BoltView {
                segments: seq![LightningSegment { row: start_row, col: start_col, created: now }],
                last_growth: now,
                growing: true,
                max_y,
                max_x,
                target_length,
            }),
    {
        let r = LightningBolt {
            segments: vec![LightningSegment { row: start_row, col: start_col, created: now }],
            last_growth: now,
            growing: true,
            max_y,
            max_x,
            target_length,
        };
        assert(r.segments@ =~= seq![LightningSegment { row: start_row, col: start_col, created: now }]);
        r
    }

    /// A new bolt seeded at `(start_row, start_col)` at `now`, with a target
    /// length drawn between half the height and two rows short of it.
    pub fn new(rng: &mut StdRng, start_row: i32, start_col: i32, max_y: i32, max_x: i32, now: u64) -> (r: LightningBolt)
        requires
            max_y >= 3,
        ensures
            r.wf(),
            max_y / 2 <= r.target_length <= max_y - 2,
            r@ == (BoltView {
                segments: seq![LightningSegment { row: start_row, col: start_col, created: now }],
                last_growth: now,
                growing: true,
                max_y,
                max_x,
                target_length: r.target_length,
            }),
    {
        let target = random_in(rng, max_y / 2, max_y - 2);
        LightningBolt::with_target(start_row, start_col, max_y, max_x, target as usize, now)
    }

    /// One tick of the bolt at `now`, with the random choices of the tick given:
    /// `offsets` are the horizontal steps of the zig-zag, `fork_offset` the
    /// offset of a fork from the growth front, where one is drawn.
    pub fn step_with(&mut self, now: u64, offsets: &Vec<i32>, fork_offset: Option<i32>)
        requires
            old(self).wf(),
            now >= old(self).last_growth,
        ensures
            final(self).wf(),
            final(self)@ == step(old(self)@, now, offsets@, fork_offset),
    {
        let ghost v = self@;
        if !self.growing || now - self.last_growth < LIGHTNING_GROWTH_DELAY_US {
            return;
        }
        self.last_growth = now;
        let front = self.segments[self.segments.len() - 1];
        assert(front == v.segments.last());
        let mut added = false;
        if self.segments.len() < self.target_length && (front.row as i64) < (self.max_y as i64) - 1 {
            let row = row_below(front.row, self.max_y);
            let mut current_x: i32 = front.col;
            let mut k: usize = 0;
            while k < offsets.len()
                invariant
                    k <= offsets@.len(),
                    self.max_x == v.max_x,
                    self.max_y == v.max_y,
                    self.target_length == v.target_length,
                    self.growing == v.growing,
                    self.last_growth == now,
                    row == next_row(front.row as int, v.max_y as int),
                    current_x == zig_col(front.col as int, offsets@, v.max_x as int, k as nat),
                    self.segments@ == v.segments + zig_segments(front, offsets@, v, now, k as nat),
                    added == (k > 0),
                decreases offsets@.len() - k,
            {
                let next_x = clamp_column(current_x as i64 + offsets[k] as i64, self.max_x);
                let seg = LightningSegment { row, col: next_x, created: now };
                self.segments.push(seg);
                current_x = next_x;
                added = true;
                k += 1;
                assert(zig_segments(front, offsets@, v, now, k as nat) =~= zig_segments(front, offsets@, v, now, (k - 1) as nat).push(seg));
            }
            if let Some(o) = fork_offset {
                let fork_x = clamp_column(front.col as i64 + o as i64, self.max_x);
                if fork_x != current_x {
                    self.segments.push(LightningSegment { row, col: fork_x, created: now });
                    added = true;
                }
            }
            assert(self.segments@ =~= grown_segments(v, now, offsets@, fork_offset));
        } else {
            assert(self.segments@ =~= grown_segments(v, now, offsets@, fork_offset));
        }
        if !added || self.segments.len() >= self.target_length || (front.row as i64) >= (self.max_y as i64) - 1 {
            self.growing = false;
        }
        assert(self@ == step(v, now, offsets@, fork_offset));
        assert forall|i: int| 0 <= i < self.segments@.len() implies (#[trigger] self.segments@[i]).created <= self.last_growth by {
            if i < v.segments.len() {
                assert(self.segments@[i] == v.segments[i]);
            }
        }
    }

    /// Whether some segment is still lit at `now`.
    pub fn is_alive(&self, now: u64) -> (r: bool)
        requires
            self.wf(),
            now >= self.last_growth,
        ensures
            r == bolt_alive(self@, now),
    {
        let mut i: usize = 0;
        while i < self.segments.len()
            invariant
                i <= self.segments@.len(),
                self.wf(),
                now >= self.last_growth,
                forall|j: int| 0 <= j < i ==> !lit_at(#[trigger] self.segments@[j], now),
            decreases self.segments@.len() - i,
        {
            if now - self.segments[i].created <= SEGMENT_LIFESPAN_US {
                assert(lit_at(self.segments@[i as int], now));
                return true;
            }
            i += 1;
        }
        false
    }

    /// One tick of the bolt at `now`: where a growth step is due, draws its
    /// random choices and grows; then reports whether the bolt is still lit.
    pub fn update(&mut self, rng: &mut StdRng, now: u64) -> (r: bool)
        requires
            old(self).wf(),
            now >= old(self).last_growth,
        ensures
            final(self).wf(),
            possible_step(old(self)@, now, final(self)@),
            old(self).segments@.is_prefix_of(final(self).segments@),
            !old(self).growing ==> final(self)@ == old(self)@,
            final(self).last_growth <= now,
            r == bolt_alive(final(self)@, now),
    {
        let ghost v = self@;
        let mut offsets: Vec<i32> = Vec::new();
        let mut fork_offset: Option<i32> = None;
        if self.growing && now - self.last_growth >= LIGHTNING_GROWTH_DELAY_US {
            let mut branches: i32 = 1;
            if roll(rng) < LIGHTNING_BRANCH_CHANCE {
                branches = random_in(rng, 1, LIGHTNING_MAX_BRANCHES + 1);
            }
            let mut k: i32 = 0;
            while k < branches
                invariant
                    0 <= k <= branches <= LIGHTNING_MAX_BRANCHES + 1,
                    1 <= branches,
                    offsets@.len() == k,
                    forall|i: int| 0 <= i < offsets@.len() ==> -ZIGZAG_SPREAD <= #[trigger] offsets@[i] <= ZIGZAG_SPREAD,
                decreases branches - k,
            {
                let o = random_in(rng, -ZIGZAG_SPREAD, ZIGZAG_SPREAD);
                offsets.push(o);
                k += 1;
            }
            if roll(rng) < FORK_CHANCE {
                fork_offset = Some(random_in(rng, -FORK_HORIZONTAL_SPREAD, FORK_HORIZONTAL_SPREAD));
            }
        } else {
            offsets.push(0);
        }
        self.step_with(now, &offsets, fork_offset);
        proof {
            assert(draws_in_range(offsets@, fork_offset) && self@ == step(v, now, offsets@, fork_offset));
            lemma_growth_monotone(v, now, offsets@, fork_offset);
        }
        self.is_alive(now)
    }

    /// The glyphs the bolt shows at `now` on a `rows` by `cols` terminal: one
    /// per segment still lit and inside the terminal, in segment order.
    pub fn draw(&self, now: u64, rows: i32, cols: i32) -> (r: Vec<Glyph>)
        requires
            self.wf(),
            now >= self.last_growth,
        ensures
            r@ == segments_glyphs(self.segments@, now, rows, cols),
    {
        let mut r: Vec<Glyph> = Vec::new();
        let mut i: usize = 0;
        while i < self.segments.len()
            invariant
                i <= self.segments@.len(),
                self.wf(),
                now >= self.last_growth,
                r@ == segments_glyphs(self.segments@.take(i as int), now, rows, cols),
            decreases self.segments@.len() - i,
        {
            let s = self.segments[i];
            assert(self.segments@.take(i + 1).drop_last() =~= self.segments@.take(i as int));
            assert(self.segments@.take(i + 1).last() == s);
            assert(s.created <= self.last_growth);
            let age = now - s.created;
            if age <= SEGMENT_LIFESPAN_US && 0 <= s.row && s.row < rows && 0 <= s.col && s.col < cols {
                let ch = if age * 100 < 33 * SEGMENT_LIFESPAN_US {
                    '*'
                } else if age * 100 < 66 * SEGMENT_LIFESPAN_US {
                    '+'
                } else {
                    '#'
                };
                r.push(Glyph { row: s.row, col: s.col, ch });
            }
            i += 1;
        }
        assert(self.segments@.take(i as int) =~= self.segments@);
        r
    }
}

/// A tick never removes or reorders segments, and a bolt that has stopped
/// growing stays exactly as it is (in particular it never grows again).
pub proof fn lemma_growth_monotone(v: BoltView, now: u64, offs: Seq<i32>, fork: Option<i32>)
    requires
        bolt_wf(v),
    ensures
        v.segments.is_prefix_of(step(v, now, offs, fork).segments),
        !v.growing ==> step(v, now, offs, fork) == v,
{
    let segs = grown_segments(v, now, offs, fork);
    assert(v.segments =~= segs.subrange(0, v.segments.len() as int));
}

/// A growth step taken once the target length is reached always ends growth;
/// a bolt that keeps growing holds fewer segments than its target.
pub proof fn lemma_target_stops_growth(v: BoltView, now: u64, offs: Seq<i32>, fork: Option<i32>)
    requires
        bolt_wf(v),
    ensures
        growth_due(v, now) && v.segments.len() >= v.target_length ==> !step(v, now, offs, fork).growing,
        step(v, now, offs, fork).growing ==> step(v, now, offs, fork).segments.len() <= v.target_length,
        growth_due(v, now) && step(v, now, offs, fork).growing ==> step(v, now, offs, fork).segments.len() < v.target_length,
{
}

/// What a bolt shows depends on its segments and the instant alone: rendering
/// the same segments twice at the same instant gives the same glyphs.
pub proof fn lemma_render_idempotent(a: BoltView, b: BoltView, now: u64, rows: i32, cols: i32)
    requires
        a.segments == b.segments,
    ensures
        segments_glyphs(a.segments, now, rows, cols) == segments_glyphs(b.segments, now, rows, cols),
{
}

} // verus!
