//! The state behind a scrolling temperature graph whose vertical range
//! follows the readings.
//!
//! Temperatures are whole millidegrees. The graph keeps the last `N`
//! readings, their plotted points, and bounds `[t_low, t_high]` that hold
//! every reading in the window. A new reading widens the bounds when it falls
//! outside them. The bounds are never narrowed on that path. When the evicted
//! reading lay close to a bound, that bound may have been held only by the
//! evicted reading, so the bounds are rebuilt from the window.
use vstd::prelude::*;
use vstd::arithmetic::div_mod::{lemma_div_is_ordered, lemma_fundamental_div_mod_converse_div};

use crate::window::{pushed, CircularBuffer};

verus! {

/// Column of the newest point. Older points sit one column further right
/// for each reading since.
pub const PLOT_LEFT: i32 = 32;

/// Row on which a reading equal to `t_low` is drawn.
pub const BOTTOM_ROW: i32 = 31;

/// Row on which a reading equal to `t_high` is drawn.
pub const TOP_ROW: i32 = 1;

/// Row used for every reading while the bounds have zero width.
pub const MID_ROW: i32 = 16;

/// Largest window that keeps every column within `i32`.
pub const MAX_CAPACITY: usize = 2147483615;

/// Largest epsilon accepted, in millidegrees.
pub const MAX_EPS: i32 = 2147483647;

/// Magnitude that the bounds never exceed: a reading widened by an epsilon.
pub const BOUND_LIMIT: i64 = 4294967296;

/// Initial lower bound, in millidegrees.
pub const DEFAULT_LOW: i32 = 20000;

/// Initial upper bound, in millidegrees.
pub const DEFAULT_HIGH: i32 = 25000;

/// An evicted reading closer than this to a bound triggers a rebuild.
pub const DEFAULT_EVICT_EPS: i32 = 100;

/// A rebuild starts from the oldest reading widened by this on each side.
pub const DEFAULT_SEED_EPS: i32 = 50;

/// A plotted point: column `x`, row `y`.
#[derive(Clone, Copy, Debug, PartialEq, Eq, Structural)]
pub struct Point {
    pub x: i32,
    pub y: i32,
}

/// The row of reading `t` under bounds `[lo, hi]`: the nearest row to
/// `31 - 30 * (t - lo) / (hi - lo)` (from `BOTTOM_ROW` at `lo` up to
/// `TOP_ROW` at `hi`), a half rounded up, and `MID_ROW` when the bounds have
/// zero width.
pub open spec fn scale_spec(t: int, lo: int, hi: int) -> int {
    if lo == hi {
        MID_ROW as int
    } else {
        let d = hi - lo;
        (62 * d - 60 * (t - lo) + d) / (2 * d)
    }
}

/// Bounds that a graph can hold.
pub open spec fn bounds_ok(lo: int, hi: int) -> bool {
    -BOUND_LIMIT <= lo <= hi <= BOUND_LIMIT
}

/// Column of the point at age rank `i` among `len` points: the newest
/// stands at `PLOT_LEFT`, each older one a column further right.
pub open spec fn column(len: int, i: int) -> int {
    PLOT_LEFT + (len - 1 - i)
}

/// The old points after the rescale pass of a push: each moves one column
/// right, and when `dirty` the point at age rank `i` takes the row of
/// `temps[i]`, the reading of that rank in the window after insertion.
pub open spec fn replotted(points: Seq<Point>, temps: Seq<i32>, dirty: bool, lo: int, hi: int) -> Seq<Point> {
    Seq::new(
        points.len(),
        |i: int| Point { x: (points[i].x + 1) as i32, y: replot_row(points[i].y, temps[i], dirty, lo, hi) },
    )
}

/// The lower bound after a rebuild: the oldest reading less `seed`, then
/// lowered to each later reading below it.
pub open spec fn fold_low(s: Seq<i32>, seed: int) -> int
    decreases s.len(),
{
    if s.len() <= 1 {
        s[0] - seed
    } else {
        let m = fold_low(s.drop_last(), seed);
        if (s.last() as int) < m {
            s.last() as int
        } else {
            m
        }
    }
}

/// The upper bound after a rebuild: the oldest reading plus `seed`, then
/// raised to each later reading above it.
pub open spec fn fold_high(s: Seq<i32>, seed: int) -> int
    decreases s.len(),
{
    if s.len() <= 1 {
        s[0] + seed
    } else {
        let m = fold_high(s.drop_last(), seed);
        if (s.last() as int) > m {
            s.last() as int
        } else {
            m
        }
    }
}

/// `a` lies strictly closer than `eps` to `b`.
pub open spec fn near(a: int, b: int, eps: int) -> bool {
    -eps < a - b < eps
}

/// Whether the bounds must be rebuilt: the window was full before the push
/// and the evicted reading lay near one of the bounds as widened by the
/// new reading.
pub open spec fn rebuild_needed(before: Seq<i32>, n: nat, lo: int, hi: int, eps: int) -> bool {
    &&& before.len() == n
    &&& before.len() > 0
    &&& (near(lo, before[0] as int, eps) || near(hi, before[0] as int, eps))
}

/// The row of a point after a push: recomputed from its reading when the
/// bounds moved, kept otherwise.
pub open spec fn replot_row(y: i32, t: i32, dirty: bool, lo: int, hi: int) -> i32 {
    if dirty {
        scale_spec(t as int, lo, hi) as i32
    } else {
        y
    }
}

/// Time from `oldest` to `newest`; zero if the clock went backwards.
pub open spec fn elapsed(oldest: u64, newest: u64) -> u64 {
    if newest >= oldest {
        (newest - oldest) as u64
    } else {
        0
    }
}

pub open spec fn min_int(a: int, b: int) -> int {
    if a < b { a } else { b }
}

pub open spec fn max_int(a: int, b: int) -> int {
    if a > b { a } else { b }
}

proof fn lemma_quotient(x: int, d: int, q: int)
    requires
        d > 0,
        q * d <= x < q * d + d,
    ensures
        x / d == q,
{
    lemma_fundamental_div_mod_converse_div(x, d, q, x - q * d);
}

proof fn lemma_scale_ends(lo: int, hi: int)
    requires
        lo < hi,
    ensures
        scale_spec(lo, lo, hi) == BOTTOM_ROW,
        scale_spec(hi, lo, hi) == TOP_ROW,
{
    let d = hi - lo;
    assert(31 * (2 * d) <= 63 * d < 31 * (2 * d) + 2 * d) by (nonlinear_arith)
        requires
            d > 0,
    ;
    lemma_quotient(63 * d, 2 * d, 31);
    assert(scale_spec(lo, lo, hi) == (63 * d) / (2 * d));
    assert(1 * (2 * d) <= 3 * d < 1 * (2 * d) + 2 * d) by (nonlinear_arith)
        requires
            d > 0,
    ;
    lemma_quotient(3 * d, 2 * d, 1);
    assert(scale_spec(hi, lo, hi) == (3 * d) / (2 * d));
}

/// For fixed bounds of nonzero width, a higher reading is never drawn on a
/// lower row; `t_low` is drawn on `BOTTOM_ROW` and `t_high` on `TOP_ROW`.
pub proof fn lemma_scale_monotone(t1: int, t2: int, lo: int, hi: int)
    requires
        lo < hi,
        t1 <= t2,
    ensures
        scale_spec(t2, lo, hi) <= scale_spec(t1, lo, hi),
        scale_spec(lo, lo, hi) == BOTTOM_ROW,
        scale_spec(hi, lo, hi) == TOP_ROW,
{
    let d = hi - lo;
    assert(scale_spec(t1, lo, hi) == (63 * d - 60 * (t1 - lo)) / (2 * d));
    assert(scale_spec(t2, lo, hi) == (63 * d - 60 * (t2 - lo)) / (2 * d));
    lemma_div_is_ordered(63 * d - 60 * (t2 - lo), 63 * d - 60 * (t1 - lo), 2 * d);
    lemma_scale_ends(lo, hi);
}

/// The row of reading `t` under bounds `[lo, hi]` that hold it.
pub fn scale(t: i32, lo: i64, hi: i64) -> (r: i32)
    requires
        bounds_ok(lo as int, hi as int),
        lo <= t <= hi,
    ensures
        r == scale_spec(t as int, lo as int, hi as int),
        TOP_ROW <= r <= BOTTOM_ROW,
{
    if lo == hi {
        MID_ROW
    } else {
        let d: i64 = hi - lo;
        let u: i64 = t as i64 - lo;
        proof {
            lemma_scale_monotone(lo as int, t as int, lo as int, hi as int);
            lemma_scale_monotone(t as int, hi as int, lo as int, hi as int);
        }
        let num: i64 = 63 * d - 60 * u;
        (num / (2 * d)) as i32
    }
}

/// Whether bound `a` lies strictly closer than `eps` to reading `b`.
fn is_near(a: i64, b: i32, eps: i64) -> (r: bool)
    requires
        bounds_ok(a as int, a as int),
        0 <= eps <= MAX_EPS,
    ensures
        r == near(a as int, b as int, eps as int),
{
    let diff = a - b as i64;
    -eps < diff && diff < eps
}

/// Bounds rebuilt from the readings `s`: seeded from the oldest widened by
/// `seed` on each side, then stretched over every later reading.
fn rebuilt_bounds(s: &[i32], seed: i64) -> (r: (i64, i64))
    requires
        s@.len() >= 1,
        0 <= seed <= MAX_EPS,
    ensures
        r.0 == fold_low(s@, seed as int),
        r.1 == fold_high(s@, seed as int),
        bounds_ok(r.0 as int, r.1 as int),
        forall|j: int| 0 <= j < s@.len() ==> r.0 <= #[trigger] s@[j] <= r.1,
{
    let mut lo: i64 = s[0] as i64 - seed;
    let mut hi: i64 = s[0] as i64 + seed;
    let mut i: usize = 1;
    assert(s@.subrange(0, 1).len() == 1);
    while i < s.len()
        invariant
            1 <= i <= s@.len(),
            0 <= seed <= MAX_EPS,
            bounds_ok(lo as int, hi as int),
            lo <= s@[0] - seed,
            hi >= s@[0] + seed,
            lo == fold_low(s@.subrange(0, i as int), seed as int),
            hi == fold_high(s@.subrange(0, i as int), seed as int),
            forall|j: int| 0 <= j < i ==> lo <= #[trigger] s@[j] <= hi,
        decreases s@.len() - i,
    {
        let t = s[i];
        assert(s@.subrange(0, i + 1).drop_last() =~= s@.subrange(0, i as int));
        if (t as i64) < lo {
            lo = t as i64;
        }
        if (t as i64) > hi {
            hi = t as i64;
        }
        i = i + 1;
    }
    assert(s@.subrange(0, s@.len() as int) =~= s@);
    (lo, hi)
}

/// The graph state: the last `N` readings, their points, the last two loop
/// timestamps, and the bounds.
pub struct GraphState<const N: usize> {
    past_temperatures: CircularBuffer<i32, N>,
    past_points: CircularBuffer<Point, N>,
    times: CircularBuffer<u64, 2>,
    t_low: i64,
    t_high: i64,
    evict_eps: i64,
    seed_eps: i64,
}

impl<const N: usize> GraphState<N> {
    /// The readings in the window, oldest first.
    pub closed spec fn temps(&self) -> Seq<i32> {
        self.past_temperatures@
    }

    /// The plotted points, oldest first.
    pub closed spec fn points_view(&self) -> Seq<Point> {
        self.past_points@
    }

    /// The recorded timestamps, oldest first.
    pub closed spec fn times_view(&self) -> Seq<u64> {
        self.times@
    }

    pub closed spec fn low(&self) -> int {
        self.t_low as int
    }

    pub closed spec fn high(&self) -> int {
        self.t_high as int
    }

    pub closed spec fn evict_eps_view(&self) -> int {
        self.evict_eps as int
    }

    pub closed spec fn seed_eps_view(&self) -> int {
        self.seed_eps as int
    }

    /// The bounds hold every reading, and there is one point per reading,
    /// in its column.
    pub closed spec fn wf(&self) -> bool {
        &&& N <= MAX_CAPACITY
        &&& self.past_temperatures.wf()
        &&& self.past_points.wf()
        &&& self.times.wf()
        &&& 0 <= self.evict_eps <= MAX_EPS
        &&& 0 <= self.seed_eps <= MAX_EPS
        &&& bounds_ok(self.t_low as int, self.t_high as int)
        &&& forall|i: int|
            0 <= i < self.temps().len() ==> self.t_low <= #[trigger] self.temps()[i] <= self.t_high
        &&& self.past_points@.len() == self.temps().len()
        &&& forall|i: int|
            0 <= i < self.past_points@.len() ==> (#[trigger] self.past_points@[i]).x == column(
                self.past_points@.len() as int,
                i,
            )
    }

    /// What a well-formed graph guarantees: the sizes, the epsilons, bounds
    /// that hold every reading, and one point per reading in its column.
    pub proof fn lemma_wf_facts(&self)
        requires
            self.wf(),
        ensures
            1 <= N <= MAX_CAPACITY,
            self.temps().len() <= N,
            self.times_view().len() <= 2,
            0 <= self.evict_eps_view() <= MAX_EPS,
            0 <= self.seed_eps_view() <= MAX_EPS,
            bounds_ok(self.low(), self.high()),
            forall|i: int|
                0 <= i < self.temps().len() ==> self.low() <= #[trigger] self.temps()[i] <= self.high(),
            self.points_view().len() == self.temps().len(),
            forall|i: int|
                0 <= i < self.points_view().len() ==> (#[trigger] self.points_view()[i]).x == column(
                    self.points_view().len() as int,
                    i,
                ),
    {
        self.past_temperatures.lemma_len_bounded();
        self.times.lemma_len_bounded();
    }

    /// An empty graph with the given initial bounds and epsilons.
    pub fn with_settings(t_low: i32, t_high: i32, evict_eps: i32, seed_eps: i32) -> (r: Self)
        requires
            1 <= N <= MAX_CAPACITY,
            t_low <= t_high,
            0 <= evict_eps,
            0 <= seed_eps,
        ensures
            r.wf(),
            r.temps() == Seq::<i32>::empty(),
            r.points_view() == Seq::<Point>::empty(),
            r.times_view() == Seq::<u64>::empty(),
            r.low() == t_low,
            r.high() == t_high,
            r.evict_eps_view() == evict_eps,
            r.seed_eps_view() == seed_eps,
    {
        let r = GraphState {
            past_temperatures: CircularBuffer::new(),
            past_points: CircularBuffer::new(),
            times: CircularBuffer::new(),
            t_low: t_low as i64,
            t_high: t_high as i64,
            evict_eps: evict_eps as i64,
            seed_eps: seed_eps as i64,
        };
        r
    }

    /// An empty graph with the default bounds and epsilons.
    pub fn new() -> (r: Self)
        requires
            1 <= N <= MAX_CAPACITY,
        ensures
            r.wf(),
            r.temps() == Seq::<i32>::empty(),
            r.points_view() == Seq::<Point>::empty(),
            r.times_view() == Seq::<u64>::empty(),
            r.low() == DEFAULT_LOW,
            r.high() == DEFAULT_HIGH,
            r.evict_eps_view() == DEFAULT_EVICT_EPS,
            r.seed_eps_view() == DEFAULT_SEED_EPS,
    {
        Self::with_settings(DEFAULT_LOW, DEFAULT_HIGH, DEFAULT_EVICT_EPS, DEFAULT_SEED_EPS)
    }

    /// Adds a reading: widens the bounds to it, rebuilds them when the
    /// evicted reading lay near one, and replots every point.
    pub fn push(&mut self, temp: i32)
        requires
            old(self).wf(),
        ensures
            final(self).wf(),
            final(self).temps() == pushed(old(self).temps(), temp, N as nat),
            final(self).times_view() == old(self).times_view(),
            final(self).evict_eps_view() == old(self).evict_eps_view(),
            final(self).seed_eps_view() == old(self).seed_eps_view(),
            ({
                let lo1 = min_int(old(self).low(), temp as int);
                let hi1 = max_int(old(self).high(), temp as int);
                if rebuild_needed(old(self).temps(), N as nat, lo1, hi1, old(self).evict_eps_view()) {
                    &&& final(self).low() == fold_low(final(self).temps(), old(self).seed_eps_view())
                    &&& final(self).high() == fold_high(final(self).temps(), old(self).seed_eps_view())
                } else {
                    &&& final(self).low() == lo1
                    &&& final(self).high() == hi1
                }
            }),
            !rebuild_needed(
                old(self).temps(),
                N as nat,
                min_int(old(self).low(), temp as int),
                max_int(old(self).high(), temp as int),
                old(self).evict_eps_view(),
            ) ==> final(self).low() <= old(self).low() && old(self).high() <= final(self).high(),
            ({
                let lo1 = min_int(old(self).low(), temp as int);
                let hi1 = max_int(old(self).high(), temp as int);
                let dirty = rebuild_needed(old(self).temps(), N as nat, lo1, hi1, old(self).evict_eps_view())
                    || lo1 != old(self).low() || hi1 != old(self).high();
                final(self).points_view() == pushed(
                    replotted(old(self).points_view(), final(self).temps(), dirty, final(self).low(), final(self).high()),
                    (Point { x: PLOT_LEFT, y: scale_spec(temp as int, final(self).low(), final(self).high()) as i32 }),
                    N as nat,
                )
            }),
    {
        let ghost old_temps = self.temps();
        let ghost old_points = self.past_points@;
        proof {
            self.lemma_wf_facts();
        }
        let mut dirty = false;
        let dropped = self.past_temperatures.last();
        let was_full = self.past_temperatures.is_full();
        self.past_temperatures.push(temp);

        // Widen the bounds to the new reading.
        if (temp as i64) < self.t_low {
            self.t_low = temp as i64;
            dirty = true;
        }
        if (temp as i64) > self.t_high {
            self.t_high = temp as i64;
            dirty = true;
        }
        let ghost lo1 = self.t_low as int;
        let ghost hi1 = self.t_high as int;

        // Widening never narrows a bound; if the evicted reading may have
        // held one, rebuild both from the window.
        let rebuild = match dropped {
            Some(d) => was_full && (is_near(self.t_low, d, self.evict_eps) || is_near(
                self.t_high,
                d,
                self.evict_eps,
            )),
            None => false,
        };
        assert(rebuild == rebuild_needed(old_temps, N as nat, lo1, hi1, self.evict_eps as int));
        if rebuild {
            let (lo, hi) = rebuilt_bounds(self.past_temperatures.as_slice(), self.seed_eps);
            self.t_low = lo;
            self.t_high = hi;
            dirty = true;
        }
        let lo = self.t_low;
        let hi = self.t_high;
        let ghost temps = self.temps();
        proof {
            self.past_temperatures.lemma_len_bounded();
        }
        assert(forall|i: int| 0 <= i < temps.len() ==> lo <= #[trigger] temps[i] <= hi);
        assert(temps.len() >= old_points.len());
        assert forall|i: int| 0 <= i < old_points.len() implies (#[trigger] old_points[i]).x < i32::MAX
            && (dirty ==> lo <= temps[i] <= hi) by {
            assert(old_points[i].x == column(old_points.len() as int, i));
        }

        // Scroll the old points one column and, when the bounds moved,
        // replot each from the reading of the same age rank.
        self.past_points.zip_with(
            &self.past_temperatures,
            (|p: Point, t: i32| -> (r: Point)
                requires
                    p.x < i32::MAX,
                    dirty ==> lo <= t <= hi,
                    dirty ==> bounds_ok(lo as int, hi as int),
                ensures
                    r.x == p.x + 1,
                    r.y == replot_row(p.y, t, dirty, lo as int, hi as int),
                {
                    let y = if dirty {
                        scale(t, lo, hi)
                    } else {
                        p.y
                    };
                    Point { x: p.x + 1, y }
                }),
        );
        let ghost mid = self.past_points@;
        assert(mid =~= replotted(old_points, temps, dirty, lo as int, hi as int));

        // Append the newest point at the left edge of the plot.
        let y = scale(temp, lo, hi);
        self.past_points.push(Point { x: PLOT_LEFT, y });
        let ghost after = self.past_points@;
        assert forall|i: int| 0 <= i < after.len() implies (#[trigger] after[i]).x == column(
            after.len() as int,
            i,
        ) by {
            if i < after.len() - 1 {
                if old_points.len() < N {
                    assert(after[i] == mid[i]);
                    assert(old_points[i].x == column(old_points.len() as int, i));
                } else {
                    assert(after[i] == mid[i + 1]);
                    assert(old_points[i + 1].x == column(old_points.len() as int, i + 1));
                }
            }
        }
    }

    /// Records the clock reading `now_ms` for measuring the loop's duration.
    pub fn push_time(&mut self, now_ms: u64)
        requires
            old(self).wf(),
        ensures
            final(self).wf(),
            final(self).times_view() == pushed(old(self).times_view(), now_ms, 2),
            final(self).temps() == old(self).temps(),
            final(self).points_view() == old(self).points_view(),
            final(self).low() == old(self).low(),
            final(self).high() == old(self).high(),
            final(self).evict_eps_view() == old(self).evict_eps_view(),
            final(self).seed_eps_view() == old(self).seed_eps_view(),
    {
        self.times.push(now_ms);
    }

    /// Time between the two recorded clock readings, once there are two.
    pub fn time_delta(&self) -> (r: Option<u64>)
        requires
            self.wf(),
        ensures
            r == (if self.times_view().len() == 2 {
                Some(elapsed(self.times_view()[0], self.times_view()[1]))
            } else {
                None
            }),
    {
        proof {
            self.times.lemma_len_bounded();
        }
        if !self.times.is_full() {
            return None;
        }
        match (self.times.last(), self.times.head()) {
            (Some(oldest), Some(newest)) => {
                if newest >= oldest {
                    Some(newest - oldest)
                } else {
                    Some(0)
                }
            },
            _ => None,
        }
    }

    /// The lower bound, in millidegrees.
    pub fn t_low(&self) -> (r: i64)
        ensures
            r == self.low(),
    {
        self.t_low
    }

    /// The upper bound, in millidegrees.
    pub fn t_high(&self) -> (r: i64)
        ensures
            r == self.high(),
    {
        self.t_high
    }

    /// The plotted points, oldest first, ready to be drawn as one line.
    pub fn points(&self) -> (r: &[Point])
        requires
            self.wf(),
        ensures
            r@ == self.points_view(),
    {
        self.past_points.as_slice()
    }

    /// The readings in the window, oldest first.
    pub fn temperatures(&self) -> (r: &[i32])
        requires
            self.wf(),
        ensures
            r@ == self.temps(),
    {
        self.past_temperatures.as_slice()
    }
}

} // verus!
