//! The water surface: a one-shot fill animation (a quartic ease toward the
//! nominal level) followed by an endless two-frequency wave. The level is a
//! dimensionless scalar scaled by 1_000_000 (so 1_000_000 is the nominal full
//! surface); times are in microseconds.

use vstd::prelude::*;

use crate::fxp::sin_turn;
use crate::fxp::sin_turn_micro;

verus! {

/// How long the fill animation runs, in microseconds.
pub const FILL_DURATION_US: u64 = 1_000_000;

/// The wave pattern repeats after this many whole seconds of animation time.
pub const WAVE_WRAP_SECS: u64 = 10;

/// Level of the fill animation at `t` microseconds after its start
/// (`0 <= t < 1_000_000`): the quartic ease `-16 (t - 1)^4 + 1`, scaled by
/// 1_000_000. At `t = 0` this sits at -15_000_000; it rises to the nominal
/// level as `t` approaches one second.
pub open spec fn fill_level_micro(t: int) -> int {
    let u = 1_000_000 - t;
    1_000_000 - 16 * (u * u * u * u) / 1_000_000_000_000_000_000
}

/// Wave time: whole seconds wrap modulo ten while the sub-second part is
/// kept, exactly as the animation clock does.
pub open spec fn wave_wrap_us(t: int) -> int {
    (t / 1_000_000 % 10) * 1_000_000 + t % 1_000_000
}

/// Level of the wave at `t` microseconds after the wave started:
/// `1 + 0.01 (sin(0.4 pi s) + sin(0.6 pi s))` over the wrapped time `s`,
/// scaled by 1_000_000. The two sine arguments are 0.2 and 0.3 turns per
/// second, reduced to a single turn.
pub open spec fn wave_level_micro(t: int) -> int {
    let w = wave_wrap_us(t);
    let a1 = w / 5 % 1_000_000;
    let a2 = w * 3 / 10 % 1_000_000;
    (100_000_000 + sin_turn_micro(a1) + sin_turn_micro(a2)) / 100
}

/// The water surface: when the current phase began, and the current level.
pub struct Water {
    /// Start of the current phase (fill or wave), in microseconds of scene time.
    pub start_time_us: u64,
    /// Current level, scaled by 1_000_000.
    pub water_level_micro: i64,
}

impl Water {
    /// Every level the surface ever takes, from the bottom of the fill curve
    /// to the crest of the wave.
    pub open spec fn well_formed(self) -> bool {
        -15_000_000 <= self.water_level_micro <= 1_020_000
    }

    /// A new, still-empty surface whose fill phase starts now.
    pub fn new(now_us: u64) -> (w: Water)
        ensures
            w.start_time_us == now_us,
            w.water_level_micro == 0,
            w.well_formed(),
    {
        Water { start_time_us: now_us, water_level_micro: 0 }
    }

    /// One tick of the fill phase. Once a full second has elapsed the level
    /// snaps to nominal, the clock restarts for the wave phase, and the
    /// returned flag signals the one-time transition out of the fill.
    pub fn fill_step(&mut self, now_us: u64) -> (done: bool)
        requires
            old(self).start_time_us <= now_us,
        ensures
            done == (now_us - old(self).start_time_us >= FILL_DURATION_US),
            done ==> final(self).water_level_micro == 1_000_000
                && final(self).start_time_us == now_us,
            !done ==> final(self).water_level_micro
                == fill_level_micro(now_us - old(self).start_time_us)
                && final(self).start_time_us == old(self).start_time_us,
            final(self).well_formed(),
    {
        let t: u64 = now_us - self.start_time_us;
        if t >= FILL_DURATION_US {
            self.water_level_micro = 1_000_000;
            self.start_time_us = now_us;
            true
        } else {
            let u: u128 = (1_000_000 - t) as u128;
            proof {
                assert(u * u <= 1_000_000_000_000
                    && u * u * u <= 1_000_000_000_000_000_000
                    && u * u * u * u <= 1_000_000_000_000_000_000_000_000) by (nonlinear_arith)
                    requires 0 < u <= 1_000_000;
            }
            let q: u128 = 16 * (u * u * u * u) / 1_000_000_000_000_000_000;
            proof {
                vstd::arithmetic::div_mod::lemma_multiply_divide_le(
                    16 * (u * u * u * u), 1_000_000_000_000_000_000, 16_000_000);
                vstd::arithmetic::div_mod::lemma_div_pos_is_pos(
                    16 * (u * u * u * u), 1_000_000_000_000_000_000);
            }
            self.water_level_micro = 1_000_000 - (q as i64);
            false
        }
    }

    /// One tick of the wave phase: the level becomes the wave curve at the
    /// time elapsed since the wave began.
    pub fn wave_step(&mut self, now_us: u64)
        requires
            old(self).start_time_us <= now_us,
        ensures
            final(self).water_level_micro == wave_level_micro(now_us - old(self).start_time_us),
            final(self).start_time_us == old(self).start_time_us,
            final(self).well_formed(),
    {
        let t: u64 = now_us - self.start_time_us;
        let w: u64 = t / 1_000_000 % WAVE_WRAP_SECS * 1_000_000 + t % 1_000_000;
        let a1: u64 = w / 5 % 1_000_000;
        let a2: u64 = w * 3 / 10 % 1_000_000;
        let s1: i64 = sin_turn(a1);
        let s2: i64 = sin_turn(a2);
        self.water_level_micro = (100_000_000 + s1 + s2) / 100;
        proof {
            lemma_div_bracket_100(100_000_000 + s1 + s2);
        }
    }

    /// Screen-space vertical translation of the water sprite, in
    /// milli-pixels: `(-1 + level / 2) * window_height`.
    pub fn surface_translation_y_mpx(&self, window_height_px: u64) -> (y: i64)
        requires
            self.well_formed(),
            1 <= window_height_px <= 1_000_000,
        ensures
            y == surface_translation_y_spec(self.water_level_micro as int, window_height_px as int),
    {
        let h = window_height_px as i64;
        proof {
            lemma_level_product_bound(h as int, 2_000_000 - self.water_level_micro);
        }
        -(h * (2_000_000 - self.water_level_micro) / 2000)
    }

    /// The world-space height of the water line that the character swims
    /// against, in milli-pixels: `(-1/2 + level / 2) * window_height`.
    pub fn water_line_y_mpx(&self, window_height_px: u64) -> (y: i64)
        requires
            self.well_formed(),
            1 <= window_height_px <= 1_000_000,
        ensures
            y == water_line_y_spec(self.water_level_micro as int, window_height_px as int),
    {
        let h = window_height_px as i64;
        if self.water_level_micro >= 1_000_000 {
            proof {
                lemma_level_product_bound(h as int, self.water_level_micro - 1_000_000);
            }
            h * (self.water_level_micro - 1_000_000) / 2000
        } else {
            proof {
                lemma_level_product_bound(h as int, 1_000_000 - self.water_level_micro);
            }
            -(h * (1_000_000 - self.water_level_micro) / 2000)
        }
    }
}

/// Screen translation of the surface sprite as a function of level and
/// window height, in milli-pixels.
pub open spec fn surface_translation_y_spec(level: int, h: int) -> int {
    -(h * (2_000_000 - level) / 2000)
}

/// World height of the water line as a function of level and window height,
/// in milli-pixels.
pub open spec fn water_line_y_spec(level: int, h: int) -> int {
    if level >= 1_000_000 {
        h * (level - 1_000_000) / 2000
    } else {
        -(h * (1_000_000 - level) / 2000)
    }
}

/// Law: over the whole fill animation the curve never decreases: an earlier
/// time never shows a higher level than a later one.
pub proof fn lemma_fill_curve_monotonic(t1: int, t2: int)
    requires
        0 <= t1 <= t2 < 1_000_000,
    ensures
        fill_level_micro(t1) <= fill_level_micro(t2),
{
    let u1 = 1_000_000 - t1;
    let u2 = 1_000_000 - t2;
    assert(u2 * u2 * u2 * u2 <= u1 * u1 * u1 * u1) by (nonlinear_arith)
        requires 0 < u2 <= u1;
    vstd::arithmetic::div_mod::lemma_div_is_ordered(
        16 * (u2 * u2 * u2 * u2), 16 * (u1 * u1 * u1 * u1), 1_000_000_000_000_000_000);
}

/// Law: the fill curve starts at exactly -15 (an artifact of the quartic
/// ease, deliberately kept) and stays at or below the nominal level for its
/// whole duration.
pub proof fn lemma_fill_curve_range()
    ensures
        fill_level_micro(0) == -15_000_000,
        forall|t: int| 0 <= t < 1_000_000
            ==> -15_000_000 <= #[trigger] fill_level_micro(t) <= 1_000_000,
{
    assert(16 * (1_000_000int * 1_000_000 * 1_000_000 * 1_000_000)
        == 16_000_000_000_000_000_000_000_000int) by (nonlinear_arith);
    assert(fill_level_micro(0) == -15_000_000);
    assert forall|t: int| 0 <= t < 1_000_000
        implies -15_000_000 <= #[trigger] fill_level_micro(t) <= 1_000_000 by {
        lemma_fill_curve_monotonic(0, t);
        let u = 1_000_000 - t;
        assert(0 <= u * u * u * u) by (nonlinear_arith)
            requires 0 < u;
        vstd::arithmetic::div_mod::lemma_div_pos_is_pos(
            16 * (u * u * u * u), 1_000_000_000_000_000_000);
    }
}

/// Law: the wave level never strays more than 0.02 from the nominal level;
/// the band `[980_000, 1_020_000]` is exact for the two scaled unit sines.
pub proof fn lemma_wave_bounded(t: int)
    requires
        0 <= t,
    ensures
        980_000 <= wave_level_micro(t) <= 1_020_000,
{
    let w = wave_wrap_us(t);
    let a1 = w / 5 % 1_000_000;
    let a2 = w * 3 / 10 % 1_000_000;
    vstd::arithmetic::div_mod::lemma_mod_division_less_than_divisor(w / 5, 1_000_000);
    vstd::arithmetic::div_mod::lemma_mod_division_less_than_divisor(w * 3 / 10, 1_000_000);
    crate::fxp::lemma_sin_turn_bounds(a1);
    crate::fxp::lemma_sin_turn_bounds(a2);
    lemma_div_bracket_100(100_000_000 + sin_turn_micro(a1) + sin_turn_micro(a2));
}

/// The product of a window height and a level offset stays far inside the
/// 64-bit range, and dividing it by the translation scale keeps its sign.
proof fn lemma_level_product_bound(h: int, d: int)
    requires
        1 <= h <= 1_000_000,
        0 <= d <= 17_000_000,
    ensures
        0 <= h * d <= 17_000_000_000_000,
        0 <= h * d / 2000 <= 17_000_000_000_000,
{
    assert(0 <= h * d <= 17_000_000_000_000) by (nonlinear_arith)
        requires 1 <= h <= 1_000_000 && 0 <= d <= 17_000_000;
    vstd::arithmetic::div_mod::lemma_div_pos_is_pos(h * d, 2000);
    vstd::arithmetic::div_mod::lemma_div_nonincreasing(h * d, 2000);
}

/// For a numerator in the range the wave can produce, dividing by 100 lands
/// in the wave's level band.
proof fn lemma_div_bracket_100(n: int)
    requires
        98_000_000 <= n <= 102_000_000,
    ensures
        980_000 <= n / 100 <= 1_020_000,
{
    vstd::arithmetic::div_mod::lemma_div_is_ordered(98_000_000, n, 100);
    vstd::arithmetic::div_mod::lemma_div_is_ordered(n, 102_000_000, 100);
}

} // verus!
