//! Scoring: a running score, a rank earned from it, and three multipliers
//! that decay with time.
//!
//! Time is counted in milliseconds. A multiplier is held in millionths, so
//! `MULT_ONE` stands for a multiplier of 1. Score and multipliers saturate at
//! `u64::MAX` rather than wrap.

use vstd::prelude::*;

verus! {

/// A multiplier of 1, in millionths.
pub const MULT_ONE: u64 = 1_000_000;

/// The largest drop bonus, granted right after a placement.
pub const DROP_BONUS_MAX: u64 = 4_000_000;

/// How long the drop bonus takes to run out, in milliseconds.
pub const DROP_WINDOW_MS: u64 = 10_000;

/// How fast the clear multiplier decays: millionths per millisecond.
pub const MULT_DECAY_PER_MS: u64 = 100;

/// How long a rank boost lasts per rank left after it, in milliseconds.
pub const BOOST_MS_PER_RANK: u64 = 5_000;

/// `x` capped at `u64::MAX`.
pub open spec fn sat(x: int) -> int {
    if x > u64::MAX {
        u64::MAX as int
    } else {
        x
    }
}

/// The score needed to leave rank `r`.
pub open spec fn threshold(r: int) -> int {
    10 * (r * r)
}

/// Rank, rank buffer and threshold once `buffer` has been spent on as many
/// rank-ups as it pays for.
pub open spec fn rank_up(rank: int, buffer: int, next: int) -> (int, int, int)
    decreases buffer,
{
    if next > 0 && buffer >= next {
        rank_up(rank + 1, buffer - next, threshold(rank + 1))
    } else {
        (rank, buffer, next)
    }
}

/// A timer that grants a bonus multiplier shrinking linearly from `max_mult`
/// to 0 as its time runs out.
#[derive(Debug, Clone)]
pub struct DropTimer {
    max_mult: u64,
    start_timer_ms: u64,
    current_remaining: u64,
}

/// What a drop timer holds.
pub ghost struct DropTimerModel {
    pub max_mult: int,
    pub start_ms: int,
    pub remaining_ms: int,
}

impl View for DropTimer {
    type V = DropTimerModel;

    closed spec fn view(&self) -> DropTimerModel {
        DropTimerModel {
            max_mult: self.max_mult as int,
            start_ms: self.start_timer_ms as int,
            remaining_ms: self.current_remaining as int,
        }
    }
}

/// A drop timer that has time to run and holds no more than its full time.
pub open spec fn drop_wf(d: DropTimerModel) -> bool {
    &&& 0 < d.start_ms <= u64::MAX
    &&& 0 <= d.remaining_ms <= d.start_ms
    &&& 0 <= d.max_mult <= u64::MAX
}

impl DropTimer {
    pub open spec fn wf(&self) -> bool {
        drop_wf(self@)
    }

    /// The bonus granted now: `max_mult` scaled by the share of time left.
    pub open spec fn bonus(&self) -> int {
        self@.max_mult * self@.remaining_ms / self@.start_ms
    }

    /// A full timer of `timer_ms` milliseconds granting up to `max_mult`.
    pub fn new(max_mult: u64, timer_ms: u64) -> (r: Self)
        requires
            timer_ms > 0,
        ensures
            r.wf(),
            r@ == (DropTimerModel { max_mult: max_mult as int, start_ms: timer_ms as int, remaining_ms: timer_ms as int }),
    {
        DropTimer { max_mult, start_timer_ms: timer_ms, current_remaining: timer_ms }
    }

    /// Lets `elapsed_ms` pass; the time left floors at 0. Returns the time left.
    pub fn pass_time(&mut self, elapsed_ms: u64) -> (r: u64)
        requires
            old(self).wf(),
        ensures
            final(self).wf(),
            final(self)@ == (DropTimerModel {
                remaining_ms: if old(self)@.remaining_ms > elapsed_ms { old(self)@.remaining_ms - elapsed_ms } else { 0 },
                ..old(self)@
            }),
            r == final(self)@.remaining_ms,
    {
        self.current_remaining = self.current_remaining.saturating_sub(elapsed_ms);
        self.current_remaining
    }

    /// Restores the full time.
    pub fn reset(&mut self)
        requires
            old(self).wf(),
        ensures
            final(self).wf(),
            final(self)@ == (DropTimerModel { remaining_ms: old(self)@.start_ms, ..old(self)@ }),
    {
        self.current_remaining = self.start_timer_ms;
    }

    /// The bonus granted now, in millionths.
    pub fn mult(&self) -> (r: u64)
        requires
            self.wf(),
        ensures
            r == self.bonus(),
            r <= self@.max_mult,
    {
        let m = self.max_mult as u128;
        let left = self.current_remaining as u128;
        let start = self.start_timer_ms as u128;
        proof {
            let (mi, li, si) = (m as int, left as int, start as int);
            assert(mi * li <= mi * si) by (nonlinear_arith)
                requires li <= si, 0 <= mi;
            assert(mi * li / si <= mi) by (nonlinear_arith)
                requires mi * li <= mi * si, si > 0, 0 <= mi;
            assert(mi * li <= u64::MAX * u64::MAX) by (nonlinear_arith)
                requires 0 <= mi <= u64::MAX, 0 <= li <= u64::MAX;
        }
        (m * left / start) as u64
    }
}

/// The score, the rank earned from it, and the multipliers applied to new
/// points.
#[derive(Debug, Clone)]
pub struct GameScore {
    score: u64,
    rank: u32,
    rank_mult: Option<u64>,
    rank_boost_timer: u64,
    rank_boost_timer_max: u64,
    rank_buffer: u64,
    next_rank: u128,
    mult: u64,
    mult_decay_rate: u64,
    drop_timer: DropTimer,
}

/// What a score holds.
pub ghost struct ScoreModel {
    /// Points earned so far.
    pub score: int,
    /// The rank, at least 1.
    pub rank: int,
    /// The multiplier of the active rank boost, if one is active.
    pub boost: Option<int>,
    /// Time left on the active rank boost.
    pub boost_ms: int,
    /// The length the active rank boost started with.
    pub boost_max_ms: int,
    /// Points earned toward the next rank.
    pub buffer: int,
    /// Points needed for the next rank.
    pub next_rank: int,
    /// The clear multiplier: at least `MULT_ONE`, raised by clears.
    pub mult: int,
    /// How fast the clear multiplier decays.
    pub decay_rate: int,
    /// The drop timer.
    pub drop: DropTimerModel,
}

impl View for GameScore {
    type V = ScoreModel;

    closed spec fn view(&self) -> ScoreModel {
        ScoreModel {
            score: self.score as int,
            rank: self.rank as int,
            boost: match self.rank_mult {
                Some(m) => Some(m as int),
                None => None,
            },
            boost_ms: self.rank_boost_timer as int,
            boost_max_ms: self.rank_boost_timer_max as int,
            buffer: self.rank_buffer as int,
            next_rank: self.next_rank as int,
            mult: self.mult as int,
            decay_rate: self.mult_decay_rate as int,
            drop: self.drop_timer@,
        }
    }
}

/// The multiplier applied to new points in state `m`: drop bonus, clear
/// multiplier and rank boost added up.
pub open spec fn current_mult_of(m: ScoreModel) -> int {
    sat(m.drop.max_mult * m.drop.remaining_ms / m.drop.start_ms + m.mult + match m.boost {
        Some(b) => b,
        None => 0,
    })
}

/// The points that `points` base points are worth under multiplier `mult`
/// (in millionths), rounded to the nearest whole point, halves up.
pub open spec fn scaled_points(points: int, mult: int) -> int {
    sat((points * mult + MULT_ONE / 2) / (MULT_ONE as int))
}

/// State `m` after `points` base points are scored.
pub open spec fn after_score(m: ScoreModel, points: int) -> ScoreModel {
    let delta = scaled_points(points, current_mult_of(m));
    let ranked = rank_up(m.rank, sat(m.buffer + delta), m.next_rank);
    ScoreModel { score: sat(m.score + delta), rank: ranked.0, buffer: ranked.1, next_rank: ranked.2, ..m }
}

/// A fresh score: nothing scored, rank 1, no boost, clear multiplier 1 and
/// a full drop timer.
pub open spec fn fresh_score() -> ScoreModel {
    ScoreModel {
        score: 0,
        rank: 1,
        boost: None,
        boost_ms: 0,
        boost_max_ms: 0,
        buffer: 0,
        next_rank: threshold(1),
        mult: MULT_ONE as int,
        decay_rate: MULT_DECAY_PER_MS as int,
        drop: DropTimerModel {
            max_mult: DROP_BONUS_MAX as int,
            start_ms: DROP_WINDOW_MS as int,
            remaining_ms: DROP_WINDOW_MS as int,
        },
    }
}

/// State `m` after `dt` milliseconds: the rank boost runs down and ends when
/// its time is out, the clear multiplier decays toward 1 and the drop timer
/// runs down to 0.
pub open spec fn after_time(m: ScoreModel, dt: int) -> ScoreModel {
    let left = if m.boost_ms > dt { m.boost_ms - dt } else { 0 };
    ScoreModel {
        boost: if left == 0 { None } else { m.boost },
        boost_ms: left,
        boost_max_ms: if left == 0 { 0 } else { m.boost_max_ms },
        mult: if m.mult - dt * m.decay_rate > MULT_ONE { m.mult - dt * m.decay_rate } else { MULT_ONE as int },
        drop: DropTimerModel {
            remaining_ms: if m.drop.remaining_ms > dt { m.drop.remaining_ms - dt } else { 0 },
            ..m.drop
        },
        ..m
    }
}

/// Whether a rank boost can start: the rank is above 1 and no boost is active.
pub open spec fn can_boost(m: ScoreModel) -> bool {
    m.rank > 1 && m.boost is None
}

/// State `m` once a boost starts: it multiplies by the rank held before, the
/// rank drops by one, and it lasts `BOOST_MS_PER_RANK` per rank left.
pub open spec fn after_boost(m: ScoreModel) -> ScoreModel {
    ScoreModel {
        rank: m.rank - 1,
        boost: Some(m.rank * MULT_ONE),
        boost_ms: (m.rank - 1) * BOOST_MS_PER_RANK,
        boost_max_ms: (m.rank - 1) * BOOST_MS_PER_RANK,
        ..m
    }
}

/// State `m` with the clear multiplier raised by `total` lines cleared.
pub open spec fn with_mult(m: ScoreModel, total: int) -> ScoreModel {
    ScoreModel { mult: sat(m.mult + total * total * MULT_ONE), ..m }
}

/// State `m` with a full drop timer.
pub open spec fn with_drop_reset(m: ScoreModel) -> ScoreModel {
    ScoreModel { drop: DropTimerModel { remaining_ms: m.drop.start_ms, ..m.drop }, ..m }
}

proof fn lemma_product_fits(a: int, b: int)
    requires
        0 <= a <= u64::MAX,
        0 <= b <= u64::MAX,
    ensures
        0 <= a * b <= (u64::MAX as int) * (u64::MAX as int),
{
    assert(0 <= a * b <= (u64::MAX as int) * (u64::MAX as int)) by (nonlinear_arith)
        requires 0 <= a <= u64::MAX, 0 <= b <= u64::MAX;
}

proof fn lemma_rank_bound(r: int)
    requires
        r >= 1,
        threshold(r) <= u64::MAX,
    ensures
        r < 0x8000_0000,
{
    assert(r < 0x8000_0000) by (nonlinear_arith)
        requires r >= 1, 10 * (r * r) <= u64::MAX;
}

proof fn lemma_threshold_fits(r: int)
    requires
        1 <= r <= u32::MAX,
    ensures
        0 < threshold(r) <= threshold(u32::MAX as int),
{
    assert(0 < 10 * (r * r) <= 10 * ((u32::MAX as int) * (u32::MAX as int))) by (nonlinear_arith)
        requires 1 <= r <= u32::MAX;
}

proof fn lemma_threshold_grows(r: int)
    requires
        r >= 1,
    ensures
        threshold(r) <= threshold(r + 1),
{
    assert(10 * (r * r) <= 10 * ((r + 1) * (r + 1))) by (nonlinear_arith)
        requires r >= 1;
}

proof fn lemma_rank_up(rank: int, buffer: int, next: int)
    requires
        rank >= 1,
        next >= threshold(rank),
        buffer >= 0,
    ensures
        rank_up(rank, buffer, next).0 >= rank,
        0 <= rank_up(rank, buffer, next).1 < rank_up(rank, buffer, next).2,
        rank_up(rank, buffer, next).2 >= threshold(rank_up(rank, buffer, next).0),
        rank_up(rank, buffer, next).1 <= buffer,
    decreases buffer,
{
    lemma_threshold_fits_any(rank);
    if next > 0 && buffer >= next {
        lemma_threshold_fits_any(rank + 1);
        lemma_rank_up(rank + 1, buffer - next, threshold(rank + 1));
    }
}

proof fn lemma_threshold_fits_any(r: int)
    requires
        r >= 1,
    ensures
        threshold(r) >= 10,
{
    assert(10 * (r * r) >= 10) by (nonlinear_arith)
        requires r >= 1;
}

impl GameScore {
    pub open spec fn wf(&self) -> bool {
        let m = self@;
        &&& 1 <= m.rank <= u32::MAX
        &&& 0 <= m.score <= u64::MAX
        &&& 0 <= m.buffer < m.next_rank
        &&& threshold(m.rank) <= m.next_rank <= threshold(u32::MAX as int)
        &&& MULT_ONE <= m.mult <= u64::MAX
        &&& 0 <= m.decay_rate <= u64::MAX
        &&& (m.boost is Some) == (m.boost_ms > 0)
        &&& 0 <= m.boost_ms <= m.boost_max_ms <= u64::MAX
        &&& (m.boost_ms == 0 ==> m.boost_max_ms == 0)
        &&& (m.boost matches Some(b) ==> 0 <= b <= u64::MAX)
        &&& drop_wf(m.drop)
    }

    /// A fresh score: nothing scored, rank 1, no boost, clear multiplier 1 and
    /// a full drop timer.
    pub fn new() -> (r: Self)
        ensures
            r.wf(),
            r@ == fresh_score(),
    {
        let r = GameScore {
            score: 0,
            rank: 1,
            rank_mult: None,
            rank_boost_timer: 0,
            rank_boost_timer_max: 0,
            rank_buffer: 0,
            next_rank: Self::next_rank_score(1),
            mult: MULT_ONE,
            mult_decay_rate: MULT_DECAY_PER_MS,
            drop_timer: DropTimer::new(DROP_BONUS_MAX, DROP_WINDOW_MS),
        };
        proof {
            lemma_threshold_fits(1);
        }
        r
    }

    /// The score needed to leave rank `r`: ten times its square.
    fn next_rank_score(r: u32) -> (t: u128)
        ensures
            t == threshold(r as int),
    {
        let w = r as u128;
        proof {
            assert(w * w <= (u32::MAX as int) * (u32::MAX as int)) by (nonlinear_arith)
                requires w <= u32::MAX;
        }
        10 * (w * w)
    }

    /// Lets `dt_ms` milliseconds pass: the rank boost runs down and ends when
    /// its time is out, the clear multiplier decays toward 1 and the drop
    /// timer runs down.
    pub fn update(&mut self, dt_ms: u64)
        requires
            old(self).wf(),
        ensures
            final(self).wf(),
            final(self)@ == after_time(old(self)@, dt_ms as int),
    {
        if self.rank_boost_timer > 0 {
            self.rank_boost_timer = self.rank_boost_timer.saturating_sub(dt_ms);
            if self.rank_boost_timer == 0 {
                self.rank_mult = None;
                self.rank_boost_timer_max = 0;
            }
        }
        proof {
            lemma_product_fits(dt_ms as int, self.mult_decay_rate as int);
        }
        let decay = dt_ms as u128 * self.mult_decay_rate as u128;
        if (self.mult as u128) > MULT_ONE as u128 + decay {
            self.mult = (self.mult as u128 - decay) as u64;
        } else {
            self.mult = MULT_ONE;
        }
        self.drop_timer.pass_time(dt_ms);
    }

    /// Restores the drop timer to its full time.
    pub fn reset_drop_timer(&mut self)
        requires
            old(self).wf(),
        ensures
            final(self).wf(),
            final(self)@ == with_drop_reset(old(self)@),
    {
        self.drop_timer.reset();
    }

    /// The points earned so far.
    pub fn score(&self) -> (r: u64)
        ensures
            r == self@.score,
    {
        self.score
    }

    /// The current rank.
    pub fn rank(&self) -> (r: u32)
        ensures
            r == self@.rank,
    {
        self.rank
    }

    /// How far the rank buffer has come toward the next rank, in millionths
    /// (`MULT_ONE` is all the way).
    pub fn percent_to_next_rank(&self) -> (r: u64)
        requires
            self.wf(),
        ensures
            r == self@.buffer * MULT_ONE / self@.next_rank,
            r < MULT_ONE,
    {
        let b = self.rank_buffer as u128;
        proof {
            let (bi, ni) = (b as int, self.next_rank as int);
            assert(bi * 1_000_000 / ni < 1_000_000) by (nonlinear_arith)
                requires 0 <= bi < ni;
        }
        (b * MULT_ONE as u128 / self.next_rank) as u64
    }

    /// Raises the clear multiplier by the square of the number of lines
    /// cleared.
    pub fn add_mult(&mut self, total_cleared: u32)
        requires
            old(self).wf(),
        ensures
            final(self).wf(),
            final(self)@ == with_mult(old(self)@, total_cleared as int),
    {
        let c = total_cleared as u128;
        proof {
            let ci = c as int;
            assert(0 <= ci * ci * 1_000_000 <= (u32::MAX as int) * (u32::MAX as int) * 1_000_000) by (nonlinear_arith)
                requires 0 <= ci <= u32::MAX;
        }
        let add = c * c * MULT_ONE as u128;
        let sum = self.mult as u128 + add;
        if sum > u64::MAX as u128 {
            self.mult = u64::MAX;
        } else {
            self.mult = sum as u64;
        }
    }

    /// The multiplier applied to new points, in millionths.
    pub fn current_mult(&self) -> (r: u64)
        requires
            self.wf(),
        ensures
            r == current_mult_of(self@),
    {
        let boost: u64 = match self.rank_mult {
            Some(b) => b,
            None => 0,
        };
        let sum = self.drop_timer.mult() as u128 + self.mult as u128 + boost as u128;
        if sum > u64::MAX as u128 {
            u64::MAX
        } else {
            sum as u64
        }
    }

    /// Scores `points` base points times the current multiplier, rounded to
    /// the nearest whole point. The points also fill the rank buffer; each
    /// time it reaches the threshold of the rank, the threshold is spent and
    /// the rank goes up.
    pub fn add_score(&mut self, points: u32)
        requires
            old(self).wf(),
        ensures
            final(self).wf(),
            final(self)@ == after_score(old(self)@, points as int),
            final(self)@.score >= old(self)@.score,
            final(self)@.rank >= old(self)@.rank,
    {
        let mult = self.current_mult();
        proof {
            lemma_product_fits(points as int, mult as int);
        }
        let scaled = (points as u128 * mult as u128 + (MULT_ONE / 2) as u128) / MULT_ONE as u128;
        let delta: u64 = if scaled > u64::MAX as u128 {
            u64::MAX
        } else {
            scaled as u64
        };
        self.score = self.score.saturating_add(delta);
        let mut buffer = self.rank_buffer.saturating_add(delta);
        let mut rank = self.rank;
        let mut next = self.next_rank;
        let ghost target = rank_up(rank as int, buffer as int, next as int);
        proof {
            lemma_rank_up(rank as int, buffer as int, next as int);
        }
        while buffer as u128 >= next
            invariant
                1 <= rank <= u32::MAX,
                threshold(rank as int) <= next <= threshold(u32::MAX as int),
                rank_up(rank as int, buffer as int, next as int) == target,
            decreases buffer,
        {
            proof {
                lemma_threshold_fits_any(rank as int);
                lemma_rank_bound(rank as int);
            }
            buffer = buffer - next as u64;
            rank = rank + 1;
            next = Self::next_rank_score(rank);
            proof {
                lemma_threshold_fits(rank as int);
            }
        }
        self.rank_buffer = buffer;
        self.rank = rank;
        self.next_rank = next;
    }

    /// The share of the active rank boost's time that is left, in millionths;
    /// `None` when no boost is active.
    pub fn current_rank_boost_percentage(&self) -> (r: Option<u64>)
        requires
            self.wf(),
        ensures
            self@.boost is None ==> r is None,
            self@.boost is Some ==> r == Some((self@.boost_ms * MULT_ONE / self@.boost_max_ms) as u64),
            r matches Some(p) ==> p <= MULT_ONE,
    {
        if self.rank_mult.is_some() {
            let t = self.rank_boost_timer as u128;
            let max = self.rank_boost_timer_max as u128;
            proof {
                let (ti, mi) = (t as int, max as int);
                assert(ti * 1_000_000 / mi <= 1_000_000) by (nonlinear_arith)
                    requires 0 < ti <= mi;
            }
            Some((t * MULT_ONE as u128 / max) as u64)
        } else {
            None
        }
    }

    /// Spends one rank on a boost. Only when the rank is above 1 and no boost
    /// is active: the boost multiplies by the rank held before, the rank
    /// drops by one, and the boost lasts five seconds per rank left.
    pub fn rank_boost(&mut self) -> (r: bool)
        requires
            old(self).wf(),
        ensures
            final(self).wf(),
            r == can_boost(old(self)@),
            r ==> final(self)@ == after_boost(old(self)@),
            !r ==> final(self)@ == old(self)@,
    {
        if self.rank > 1 && self.rank_mult.is_none() {
            let ghost before = self.rank;
            self.rank_mult = Some(self.rank as u64 * MULT_ONE);
            self.rank = self.rank - 1;
            self.rank_boost_timer = self.rank as u64 * BOOST_MS_PER_RANK;
            self.rank_boost_timer_max = self.rank_boost_timer;
            proof {
                lemma_threshold_grows(self.rank as int);
            }
            true
        } else {
            false
        }
    }
}

} // verus!
