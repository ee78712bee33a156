//! The swimming character: a two-dimensional point mass pulled down by
//! gravity above the water line and pushed up by a square-root restoring
//! term below it, integrated with fixed-size substeps so that one long frame
//! can never destabilize the motion. Positions and velocities are in
//! milli-pixels (and milli-pixels per second); times are in microseconds.

use vstd::prelude::*;

use crate::fxp::atan_fixed;
use crate::fxp::atan_micro;
use crate::fxp::isqrt_u64;
use crate::fxp::lemma_sqrt_floor_brackets;
use crate::fxp::sqrt_floor;

verus! {

/// Frame deltas are stretched by this factor before integration.
pub const SPEED_MULTIPLIER: u64 = 6;

/// No single integration step may exceed this many microseconds (1/60 s).
pub const MAX_STEP_US: u64 = 16_667;

/// The sequence of substep deltas that consumes `raw` microseconds: full
/// steps of `MAX_STEP_US` followed by the positive remainder.
pub open spec fn substep_deltas_spec(raw: nat) -> Seq<u64>
    decreases raw,
{
    if raw == 0 {
        Seq::empty()
    } else if raw <= 16_667 {
        seq![raw as u64]
    } else {
        seq![16_667u64] + substep_deltas_spec((raw - 16_667) as nat)
    }
}

/// Sum of a sequence of deltas.
pub open spec fn sum_u64(s: Seq<u64>) -> int
    decreases s.len(),
{
    if s.len() == 0 {
        0
    } else {
        s[0] + sum_u64(s.skip(1))
    }
}

/// Law: the substep policy consumes the frame time exactly once — the substep
/// deltas add up to the raw delta — and no single substep exceeds the cap.
pub proof fn lemma_substep_conservation(raw: nat)
    ensures
        sum_u64(substep_deltas_spec(raw)) == raw,
        forall|i: int| 0 <= i < substep_deltas_spec(raw).len()
            ==> 0 < #[trigger] substep_deltas_spec(raw)[i] <= MAX_STEP_US,
        16_667 * substep_deltas_spec(raw).len() < raw + 16_667,
    decreases raw,
{
    let s = substep_deltas_spec(raw);
    if raw == 0 {
        assert(s.len() == 0);
    } else if raw <= 16_667 {
        assert(s =~= seq![raw as u64]);
        assert(s.skip(1).len() == 0);
        assert(sum_u64(s.skip(1)) == 0);
        assert(sum_u64(s) == raw);
    } else {
        lemma_substep_conservation((raw - 16_667) as nat);
        let rest = substep_deltas_spec((raw - 16_667) as nat);
        assert(s =~= seq![16_667u64] + rest);
        assert(s.skip(1) =~= rest);
        assert(forall|i: int| 0 <= i < s.len() ==> 0 < #[trigger] s[i] <= 16_667u64) by {
            assert(s[0] == 16_667u64);
            assert(forall|i: int| 1 <= i < s.len() ==> s[i] == #[trigger] rest[i - 1]);
        }
    }
}

/// Compute the substep deltas for a raw (already stretched) frame delta.
pub fn substep_deltas(raw_dt_us: u64) -> (deltas: Vec<u64>)
    ensures
        deltas@ == substep_deltas_spec(raw_dt_us as nat),
{
    let mut rem: u64 = raw_dt_us;
    let mut deltas: Vec<u64> = Vec::new();
    while rem > MAX_STEP_US
        invariant
            substep_deltas_spec(raw_dt_us as nat) =~= deltas@ + substep_deltas_spec(rem as nat),
        decreases rem,
    {
        deltas.push(MAX_STEP_US);
        proof {
            assert(substep_deltas_spec(rem as nat)
                =~= seq![16_667u64] + substep_deltas_spec((rem - 16_667) as nat));
            assert(deltas@ + substep_deltas_spec((rem - 16_667) as nat)
                =~= (deltas@.drop_last() + substep_deltas_spec(rem as nat)));
        }
        rem = rem - MAX_STEP_US;
    }
    if rem > 0 {
        proof {
            assert(substep_deltas_spec(rem as nat) =~= seq![rem]);
        }
        deltas.push(rem);
    }
    proof {
        assert(deltas@ =~= substep_deltas_spec(raw_dt_us as nat));
    }
    deltas
}

/// A two-dimensional vector in milli-pixels (or milli-pixels per second).
pub struct Vec2Mpx {
    pub x: i64,
    pub y: i64,
}

/// The swimming character: position and velocity of its point mass, and the
/// tilt of its sprite in micro-radians.
pub struct Faith {
    pub position: Vec2Mpx,
    pub velocity: Vec2Mpx,
    pub rotation_urad: i64,
}

/// The character's state as unbounded integers, for specifications.
pub struct FaithState {
    pub px: int,
    pub py: int,
    pub vx: int,
    pub vy: int,
    pub rot: int,
}

/// Truncating division for a positive divisor, as the machine computes it on
/// signed integers: round toward zero.
pub open spec fn tdiv(a: int, d: int) -> int {
    if a >= 0 {
        a / d
    } else {
        -((-a) / d)
    }
}

/// Velocity change from gravity over `dt` microseconds, in milli-pixels per
/// second: the standard gravity 9.80665 units per second squared.
pub open spec fn gravity_dv(dt: int) -> int {
    980_665 * dt / 100_000_000
}

/// Velocity change from the buoyant restoring term over `dt` microseconds
/// at `depth` milli-pixels below the water line: the square root of the
/// depth (in pixels), not a spring — steep near the surface, flat below.
pub open spec fn buoyancy_dv(depth: int, dt: int) -> int {
    sqrt_floor((depth * 1000) as nat) * dt / 1_000_000
}

/// Vertical velocity after one substep: gravity above the water line, the
/// restoring term at or below it.
pub open spec fn vel_y_after(py: int, vy: int, wy: int, dt: int) -> int {
    if py > wy {
        vy - gravity_dv(dt)
    } else {
        vy + buoyancy_dv(wy - py, dt)
    }
}

/// Normalized distance of the character from the water line, scaled by
/// 1_000_000: `2 |py - wy| / window_height`.
pub open spec fn dist_from_water_micro(py: int, wy: int, h: int) -> int {
    2000 * abs_int(py - wy) / h
}

/// The tilt response `(1 - dist)^2 - 0.01 dist`, scaled by 1_000_000.
pub open spec fn tilt_factor_micro(d: int) -> int {
    (1_000_000 - d) * (1_000_000 - d) / 1_000_000 - d / 100
}

/// The tilt direction `velocity_y * ((1 - dist)^2 - 0.01 dist)`, scaled by
/// 1_000_000, where the velocity is read in pixels per second.
pub open spec fn tilt_dir_micro(vy: int, f: int) -> int {
    tdiv(vy * f, 1000)
}

/// Sprite rotation after a substep, in micro-radians: a plain arctangent of
/// the tilt direction above water; below water the orientation flips by half
/// a turn so the sprite dives and surfaces head-first.
pub open spec fn rotation_after(py: int, vy: int, wy: int, h: int) -> int {
    let d = dist_from_water_micro(py, wy, h);
    let dir = tilt_dir_micro(vy, tilt_factor_micro(d));
    if py > wy {
        atan_micro(dir)
    } else {
        -3_141_593 - atan_micro(dir)
    }
}

/// Absolute value.
pub open spec fn abs_int(x: int) -> int {
    if x >= 0 {
        x
    } else {
        -x
    }
}

/// One whole substep: the vertical force, then semi-implicit Euler
/// integration with the fresh velocity, then the sprite tilt.
pub open spec fn step_state(s: FaithState, dt: int, wy: int, h: int) -> FaithState {
    let vy = vel_y_after(s.py, s.vy, wy, dt);
    let px = s.px + tdiv(s.vx * dt, 1_000_000);
    let py = s.py + tdiv(vy * dt, 1_000_000);
    FaithState {
        px: px,
        py: py,
        vx: s.vx,
        vy: vy,
        rot: rotation_after(py, vy, wy, h),
    }
}

/// A run of substeps, first delta first.
pub open spec fn run_state(s: FaithState, deltas: Seq<u64>, wy: int, h: int) -> FaithState
    decreases deltas.len(),
{
    if deltas.len() == 0 {
        s
    } else {
        run_state(step_state(s, deltas[0] as int, wy, h), deltas.skip(1), wy, h)
    }
}

impl Faith {
    /// The character's state as unbounded integers.
    pub open spec fn state(self) -> FaithState {
        FaithState {
            px: self.position.x as int,
            py: self.position.y as int,
            vx: self.velocity.x as int,
            vy: self.velocity.y as int,
            rot: self.rotation_urad as int,
        }
    }

    /// One integration substep against the water line at `water_y_mpx`:
    /// the vertical force first, then the position, then the sprite tilt,
    /// exactly as `step_state` describes.
    pub fn step(&mut self, dt_us: u64, water_y_mpx: i64, window_height_px: u64)
        requires
            0 < dt_us <= MAX_STEP_US,
            -2_000_000_000_000 <= old(self).position.x <= 2_000_000_000_000,
            -2_000_000_000_000 <= old(self).position.y <= 2_000_000_000_000,
            -200_000_000_000 <= old(self).velocity.x <= 200_000_000_000,
            -200_000_000_000 <= old(self).velocity.y <= 200_000_000_000,
            -10_000_000_000 <= water_y_mpx <= 10_000_000_000,
            1 <= window_height_px <= 1_000_000,
        ensures
            final(self).state() == step_state(
                old(self).state(), dt_us as int, water_y_mpx as int, window_height_px as int),
            final(self).velocity.x == old(self).velocity.x,
            old(self).velocity.y - 1_000_000 <= final(self).velocity.y
                <= old(self).velocity.y + 1_000_000,
            old(self).position.x - 3_400_000_000 <= final(self).position.x
                <= old(self).position.x + 3_400_000_000,
            old(self).position.y - 3_400_000_000 <= final(self).position.y
                <= old(self).position.y + 3_400_000_000,
    {
        let ghost s0 = old(self).state();
        // Vertical force.
        if self.position.y > water_y_mpx {
            let dv: u64 = 980_665 * dt_us / 100_000_000;
            proof {
                vstd::arithmetic::div_mod::lemma_multiply_divide_le(
                    980_665 * (dt_us as int), 100_000_000, 164);
                vstd::arithmetic::div_mod::lemma_div_pos_is_pos(
                    980_665 * (dt_us as int), 100_000_000);
            }
            self.velocity.y = self.velocity.y - (dv as i64);
        } else {
            let depth: u64 = (water_y_mpx - self.position.y) as u64;
            let x: u64 = depth * 1000;
            let r: u64 = isqrt_u64(x);
            proof {
                lemma_sqrt_floor_brackets(x as nat);
                assert(r <= 46_000_000) by (nonlinear_arith)
                    requires
                        r * r <= x,
                        x <= 2_020_000_000_000_000u64;
                assert(r * (dt_us as int) <= 46_000_000 * 16_667) by (nonlinear_arith)
                    requires r <= 46_000_000 && 0 < dt_us <= 16_667;
            }
            let dv: u64 = r * dt_us / 1_000_000;
            proof {
                vstd::arithmetic::div_mod::lemma_multiply_divide_le(
                    r * (dt_us as int), 1_000_000, 1_000_000);
                vstd::arithmetic::div_mod::lemma_div_pos_is_pos(
                    r * (dt_us as int), 1_000_000);
            }
            self.velocity.y = self.velocity.y + (dv as i64);
        }
        assert(self.velocity.y == vel_y_after(s0.py, s0.vy, water_y_mpx as int, dt_us as int));
        // Semi-implicit Euler: integrate with the fresh velocity.
        let dpx: i64 = scaled_delta(self.velocity.x, dt_us);
        self.position.x = self.position.x + dpx;
        let dpy: i64 = scaled_delta(self.velocity.y, dt_us);
        self.position.y = self.position.y + dpy;
        // Sprite tilt from the fresh position and velocity.
        let ad: i64 = if self.position.y >= water_y_mpx {
            self.position.y - water_y_mpx
        } else {
            water_y_mpx - self.position.y
        };
        let d: i64 = 2000 * ad / (window_height_px as i64);
        proof {
            vstd::arithmetic::div_mod::lemma_div_pos_is_pos(
                2000 * (ad as int), window_height_px as int);
            vstd::arithmetic::div_mod::lemma_div_nonincreasing(
                2000 * (ad as int), window_height_px as int);
        }
        assert(d == dist_from_water_micro(
            self.position.y as int, water_y_mpx as int, window_height_px as int));
        let e: i128 = 1_000_000 - (d as i128);
        proof {
            assert(e * e <= 17_000_000_000_000_000_000_000_000_000_000i128) by (nonlinear_arith)
                requires -4_100_000_000_000_000 <= e <= 1_000_000;
            assert(e * e >= 0) by (nonlinear_arith);
        }
        let f: i128 = e * e / 1_000_000 - (d as i128) / 100;
        proof {
            vstd::arithmetic::div_mod::lemma_div_pos_is_pos(e * e, 1_000_000);
            vstd::arithmetic::div_mod::lemma_div_is_ordered(
                e * e, 17_000_000_000_000_000_000_000_000_000_000, 1_000_000);
            vstd::arithmetic::div_mod::lemma_div_pos_is_pos(d as int, 100);
            vstd::arithmetic::div_mod::lemma_div_nonincreasing(d as int, 100);
            assert(f == tilt_factor_micro(d as int));
        }
        let vyw: i128 = self.velocity.y as i128;
        proof {
            assert(vyw * f <= 5_000_000_000_000_000_000_000_000_000_000_000_000i128
                && vyw * f >= -5_000_000_000_000_000_000_000_000_000_000_000_000i128)
                by (nonlinear_arith)
                requires
                    -201_000_000_000 <= vyw <= 201_000_000_000,
                    -20_000_000_000_000_000_000_000_000
                        <= f <= 20_000_000_000_000_000_000_000_000;
        }
        let dirp: i128 = vyw * f;
        let dir: i128 = dirp / 1000;
        proof {
            lemma_tdiv_range(dirp as int, 1000,
                5_000_000_000_000_000_000_000_000_000_000_000_000);
            assert(dir == tilt_dir_micro(self.velocity.y as int, f as int));
        }
        let rot: i64 = if self.position.y > water_y_mpx {
            atan_fixed(dir)
        } else {
            -3_141_593 - atan_fixed(dir)
        };
        self.rotation_urad = rot;
        proof {
            assert(self.rotation_urad == rotation_after(
                self.position.y as int, self.velocity.y as int,
                water_y_mpx as int, window_height_px as int));
        }
    }

    /// One frame tick: the frame delta is stretched by the speed multiplier,
    /// split into capped substeps, and every substep is integrated in turn.
    /// Interior substeps are not observable; only the state after the last
    /// one is. A zero-length frame has no substeps and leaves the character
    /// exactly as it was.
    pub fn advance(&mut self, frame_dt_us: u64, water_y_mpx: i64, window_height_px: u64)
        requires
            frame_dt_us <= 1_000_000,
            -100_000_000_000 <= old(self).position.x <= 100_000_000_000,
            -100_000_000_000 <= old(self).position.y <= 100_000_000_000,
            -100_000_000_000 <= old(self).velocity.x <= 100_000_000_000,
            -100_000_000_000 <= old(self).velocity.y <= 100_000_000_000,
            -10_000_000_000 <= water_y_mpx <= 10_000_000_000,
            1 <= window_height_px <= 1_000_000,
        ensures
            final(self).state() == run_state(
                old(self).state(),
                substep_deltas_spec((SPEED_MULTIPLIER * frame_dt_us) as nat),
                water_y_mpx as int,
                window_height_px as int,
            ),
            -2_000_000_000_000 <= final(self).position.x <= 2_000_000_000_000,
            -2_000_000_000_000 <= final(self).position.y <= 2_000_000_000_000,
            final(self).velocity.x == old(self).velocity.x,
            -200_000_000_000 <= final(self).velocity.y <= 200_000_000_000,
    {
        let raw: u64 = SPEED_MULTIPLIER * frame_dt_us;
        let deltas = substep_deltas(raw);
        proof {
            lemma_substep_conservation(raw as nat);
        }
        let ghost full: Seq<u64> = deltas@;
        let ghost s0 = self.state();
        let ghost wy = water_y_mpx as int;
        let ghost h = window_height_px as int;
        let n = deltas.len();
        assert(n <= 360);
        proof {
            assert(full.skip(0) =~= full);
        }
        let mut i: usize = 0;
        while i < n
            invariant
                i <= n <= 360,
                n == deltas.len(),
                deltas@ == full,
                forall|j: int| 0 <= j < full.len() ==> 0 < #[trigger] full[j] <= 16_667,
                run_state(self.state(), full.skip(i as int), wy, h) == run_state(s0, full, wy, h),
                self.velocity.x == s0.vx,
                -100_000_000_000 <= self.velocity.x <= 100_000_000_000,
                -100_000_000_000 - 1_000_000 * i <= self.velocity.y
                    <= 100_000_000_000 + 1_000_000 * i,
                -100_000_000_000 - 3_400_000_000 * i <= self.position.x
                    <= 100_000_000_000 + 3_400_000_000 * i,
                -100_000_000_000 - 3_400_000_000 * i <= self.position.y
                    <= 100_000_000_000 + 3_400_000_000 * i,
                -10_000_000_000 <= water_y_mpx <= 10_000_000_000,
                wy == water_y_mpx as int,
                1 <= window_height_px <= 1_000_000,
                h == window_height_px as int,
            decreases n - i,
        {
            let dt = deltas[i];
            let ghost before = self.state();
            self.step(dt, water_y_mpx, window_height_px);
            proof {
                assert(full.skip(i as int).skip(1) =~= full.skip(i as int + 1));
                assert(full.skip(i as int)[0] == full[i as int]);
                assert(run_state(before, full.skip(i as int), wy, h)
                    == run_state(self.state(), full.skip(i as int + 1), wy, h));
            }
            i += 1;
        }
        proof {
            assert(full.skip(n as int) =~= Seq::<u64>::empty());
            assert(run_state(self.state(), full.skip(n as int), wy, h) == self.state());
        }
    }

    /// The character enters the scene at rest, level, halfway up the window.
    pub fn spawn(window_height_px: u64) -> (f: Faith)
        requires
            window_height_px <= 1_000_000,
        ensures
            f.position.x == 0,
            f.position.y == window_height_px * 500,
            f.velocity.x == 0 && f.velocity.y == 0,
            f.rotation_urad == 0,
    {
        Faith {
            position: Vec2Mpx { x: 0, y: (window_height_px * 500) as i64 },
            velocity: Vec2Mpx { x: 0, y: 0 },
            rotation_urad: 0,
        }
    }
}

/// Law: whenever the character sits at or below the water line, the argument
/// of the square-root restoring term is non-negative — the term is
/// well-defined by construction of the branch — and the restoring impulse
/// never pushes the character further down.
pub proof fn lemma_submerged_restoring(py: int, vy: int, wy: int, dt: int)
    requires
        py <= wy,
        0 <= dt,
    ensures
        wy - py >= 0,
        buoyancy_dv(wy - py, dt) >= 0,
        vel_y_after(py, vy, wy, dt) >= vy,
{
    let root = sqrt_floor(((wy - py) * 1000) as nat) as int;
    vstd::arithmetic::mul::lemma_mul_nonnegative(root, dt);
    vstd::arithmetic::div_mod::lemma_div_pos_is_pos(root * dt, 1_000_000);
}

/// `velocity * dt / 1_000_000`: the position change of one substep, with the
/// machine's truncating division.
fn scaled_delta(v: i64, dt_us: u64) -> (r: i64)
    requires
        0 < dt_us <= MAX_STEP_US,
        -201_000_000_000 <= v <= 201_000_000_000,
    ensures
        r == tdiv(v * dt_us, 1_000_000),
        -3_400_000_000 <= r <= 3_400_000_000,
{
    proof {
        assert(-3_400_000_000_000_000 <= (v as int) * (dt_us as int) <= 3_400_000_000_000_000)
            by (nonlinear_arith)
            requires
                -201_000_000_000 <= v <= 201_000_000_000,
                0 < dt_us <= 16_667;
    }
    let p: i128 = (v as i128) * (dt_us as i128);
    let q: i128 = p / 1_000_000;
    proof {
        lemma_tdiv_range(p as int, 1_000_000, 3_400_000_000_000_000);
    }
    q as i64
}

/// For a positive divisor, truncating division maps `[-m, m]` into
/// `[-(m / d), m / d]`.
pub(crate) proof fn lemma_tdiv_range(a: int, d: int, m: int)
    requires
        0 < d,
        0 <= m,
        -m <= a <= m,
    ensures
        -(m / d) <= tdiv(a, d) <= m / d,
{
    vstd::arithmetic::div_mod::lemma_div_pos_is_pos(m, d);
    if a >= 0 {
        vstd::arithmetic::div_mod::lemma_div_is_ordered(a, m, d);
        vstd::arithmetic::div_mod::lemma_div_pos_is_pos(a, d);
    } else {
        vstd::arithmetic::div_mod::lemma_div_is_ordered(-a, m, d);
        vstd::arithmetic::div_mod::lemma_div_pos_is_pos(-a, d);
    }
}

} // verus!
