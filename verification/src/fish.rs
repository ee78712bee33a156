//! Ambient fish: each swims horizontally across the window after a random
//! delay, and is retired the moment it reaches the far edge. The population
//! is capped; one spawn attempt is made per tick while under the cap.

use vstd::prelude::*;

use crate::faith::tdiv;
use crate::rng::sample_bool;
use crate::rng::sample_inclusive;

verus! {

/// At most this many fish live at once.
pub const MAX_FISHES: usize = 32;

/// The spawners accept scene times up to this bound (about 46 days), so
/// that a position never outgrows its 64-bit fixed-point representation.
pub const MAX_SIM_TIME_US: u64 = 4_000_000_000_000;

/// One ambient fish. Distances are milli-pixels, speeds milli-pixels per
/// second, times microseconds of scene time.
#[derive(Clone, Copy)]
pub struct Fish {
    /// When the fish starts to swim (it is hidden until then).
    pub start_time_us: u64,
    /// Swim direction: right-to-left when set.
    pub flip: bool,
    /// Signed horizontal speed; negative exactly when flipped.
    pub speed_mpx: i64,
    /// Current horizontal position.
    pub x_mpx: i64,
    /// Vertical position, fixed at spawn, below the window midline.
    pub y_mpx: i64,
    /// Whether the presenter should draw it yet.
    pub visible: bool,
}

/// The horizontal offset of the spawn edge: a flipped fish enters from the
/// right half-width, an unflipped one from the left.
pub open spec fn edge_offset(flip: bool, w: int) -> int {
    if flip {
        w * 500
    } else {
        -(w * 500)
    }
}

/// Where an active fish sits: elapsed time times speed, measured from its
/// spawn edge.
pub open spec fn fish_x_spec(f: Fish, now: int, w: int) -> int {
    tdiv((now - f.start_time_us) * f.speed_mpx, 1_000_000) + edge_offset(f.flip, w)
}

/// Whether the fish has reached the far edge and must be retired.
pub open spec fn fish_gone(f: Fish, now: int, w: int) -> bool {
    if f.flip {
        fish_x_spec(f, now, w) <= -(w * 500)
    } else {
        fish_x_spec(f, now, w) >= w * 500
    }
}

/// One tick of a single fish: nothing happens before its start time; then it
/// becomes visible and moves, and it disappears on the tick it reaches the
/// far edge.
pub open spec fn advance_fish_spec(f: Fish, now: int, w: int) -> Option<Fish> {
    if now < f.start_time_us {
        Some(f)
    } else if fish_gone(f, now, w) {
        None
    } else {
        Some(Fish {
            x_mpx: fish_x_spec(f, now, w) as i64,
            visible: true,
            ..f
        })
    }
}

impl Fish {
    /// Ranges every live fish satisfies: the spawn parameters' documented
    /// bounds, and positions that fit comfortably in fixed point.
    pub open spec fn well_formed(self) -> bool {
        &&& self.start_time_us <= MAX_SIM_TIME_US + 5_000_000
        &&& (if self.flip {
            -100_000 <= self.speed_mpx <= -20_000
        } else {
            20_000 <= self.speed_mpx <= 100_000
        })
        &&& -1_000_000_000 <= self.y_mpx <= 0
        &&& -500_000_000_000 <= self.x_mpx <= 500_000_000_000
    }
}

/// One tick of a single fish, as `advance_fish_spec` describes.
pub fn advance_fish(f: &Fish, now_us: u64, window_width_px: u64) -> (r: Option<Fish>)
    requires
        f.well_formed(),
        now_us <= MAX_SIM_TIME_US,
        1 <= window_width_px <= 1_000_000,
    ensures
        r == advance_fish_spec(*f, now_us as int, window_width_px as int),
        r matches Some(g) ==> g.well_formed(),
{
    if now_us < f.start_time_us {
        return Some(*f);
    }
    let elapsed: u64 = now_us - f.start_time_us;
    proof {
        assert(-400_000_000_000_000_000
            <= (elapsed as int) * (f.speed_mpx as int)
            <= 400_000_000_000_000_000) by (nonlinear_arith)
            requires
                0 <= elapsed <= 4_000_000_000_000u64,
                -100_000 <= f.speed_mpx <= 100_000;
    }
    let prod: i128 = (elapsed as i128) * (f.speed_mpx as i128);
    let xrel: i128 = prod / 1_000_000;
    proof {
        crate::faith::lemma_tdiv_range(prod as int, 1_000_000, 400_000_000_000_000_000);
    }
    let edge: i64 = (window_width_px * 500) as i64;
    let x: i64 = if f.flip {
        (xrel as i64) + edge
    } else {
        (xrel as i64) - edge
    };
    let gone = if f.flip {
        x <= -edge
    } else {
        x >= edge
    };
    if gone {
        None
    } else {
        Some(Fish {
            start_time_us: f.start_time_us,
            flip: f.flip,
            speed_mpx: f.speed_mpx,
            x_mpx: x,
            y_mpx: f.y_mpx,
            visible: true,
        })
    }
}

/// The fish that survive one tick, in order.
pub open spec fn advanced_fishes(s: Seq<Fish>, now: int, w: int) -> Seq<Fish>
    decreases s.len(),
{
    if s.len() == 0 {
        Seq::empty()
    } else {
        let rest = advanced_fishes(s.drop_last(), now, w);
        match advance_fish_spec(s.last(), now, w) {
            Some(g) => rest.push(g),
            None => rest,
        }
    }
}

/// Surviving fish are never more numerous than the fish that entered the
/// tick, and they all stay well formed.
proof fn lemma_advanced_fishes_len(s: Seq<Fish>, now: int, w: int)
    ensures
        advanced_fishes(s, now, w).len() <= s.len(),
    decreases s.len(),
{
    if s.len() > 0 {
        lemma_advanced_fishes_len(s.drop_last(), now, w);
    }
}

/// The school of ambient fish.
pub struct FishField {
    pub fishes: Vec<Fish>,
}

impl FishField {
    /// The population respects the cap and every fish its ranges.
    pub open spec fn well_formed(self) -> bool {
        &&& self.fishes@.len() <= MAX_FISHES
        &&& forall|i: int| 0 <= i < self.fishes@.len()
            ==> #[trigger] self.fishes@[i].well_formed()
    }

    /// An empty school.
    pub fn new() -> (f: FishField)
        ensures
            f.fishes@.len() == 0,
            f.well_formed(),
    {
        FishField { fishes: Vec::new() }
    }

    /// One tick: every active fish moves (and is retired at the far edge),
    /// and when the school was under its cap at the start of the tick one
    /// new fish is spawned with randomized direction, speed, depth and start
    /// delay. A fish retired on this very tick still counts against the cap,
    /// so its slot is refilled only on the next tick. The survivors keep
    /// their order; the cap is never exceeded.
    pub fn advance(
        &mut self,
        now_us: u64,
        window_width_px: u64,
        window_height_px: u64,
        rng: &mut rand::rngs::StdRng,
    )
        requires
            old(self).well_formed(),
            now_us <= MAX_SIM_TIME_US,
            1 <= window_width_px <= 1_000_000,
            1 <= window_height_px <= 1_000_000,
        ensures
            final(self).well_formed(),
            final(self).fishes@.len() <= MAX_FISHES,
            ({
                let survivors = advanced_fishes(
                    old(self).fishes@, now_us as int, window_width_px as int);
                if old(self).fishes@.len() < MAX_FISHES {
                    &&& final(self).fishes@.len() == survivors.len() + 1
                    &&& final(self).fishes@.take(survivors.len() as int) == survivors
                    &&& spawned_fish_ok(
                        final(self).fishes@.last(), now_us as int,
                        window_width_px as int, window_height_px as int)
                } else {
                    final(self).fishes@ == survivors
                }
            }),
    {
        let ghost w = window_width_px as int;
        let mut kept: Vec<Fish> = Vec::new();
        let n = self.fishes.len();
        let mut i: usize = 0;
        proof {
            assert(self.fishes@.take(0) =~= Seq::<Fish>::empty());
        }
        while i < n
            invariant
                i <= n,
                n == self.fishes@.len(),
                self.fishes@ == old(self).fishes@,
                old(self).well_formed(),
                now_us <= MAX_SIM_TIME_US,
                1 <= window_width_px <= 1_000_000,
                w == window_width_px as int,
                kept@ == advanced_fishes(self.fishes@.take(i as int), now_us as int, w),
                forall|j: int| 0 <= j < kept@.len() ==> #[trigger] kept@[j].well_formed(),
            decreases n - i,
        {
            let ghost prefix = self.fishes@.take(i as int);
            match advance_fish(&self.fishes[i], now_us, window_width_px) {
                Some(g) => kept.push(g),
                None => {},
            }
            proof {
                assert(self.fishes@.take(i + 1).drop_last() =~= prefix);
                assert(self.fishes@.take(i + 1).last() == self.fishes@[i as int]);
            }
            i += 1;
        }
        proof {
            assert(self.fishes@.take(n as int) =~= self.fishes@);
            lemma_advanced_fishes_len(self.fishes@, now_us as int, w);
        }
        self.fishes = kept;
        if n < MAX_FISHES {
            let ghost survivors = self.fishes@;
            let flip = sample_bool(rng);
            let mag = sample_inclusive(rng, 20_000, 100_000);
            let speed: i64 = if flip {
                -(mag as i64)
            } else {
                mag as i64
            };
            let depth_milli = sample_inclusive(rng, 100, 500);
            proof {
                assert(100 * (window_height_px as int)
                    <= (depth_milli as int) * (window_height_px as int)
                    && (depth_milli as int) * (window_height_px as int)
                        <= 500 * (window_height_px as int)
                    && (depth_milli as int) * (window_height_px as int)
                        <= 500_000_000) by (nonlinear_arith)
                    requires
                        100 <= depth_milli <= 500,
                        1 <= window_height_px <= 1_000_000;
            }
            let y: i64 = -((depth_milli * window_height_px) as i64);
            let delay = sample_inclusive(rng, 1_000_000, 5_000_000);
            let edge: i64 = (window_width_px * 500) as i64;
            let newcomer = Fish {
                start_time_us: now_us + delay,
                flip: flip,
                speed_mpx: speed,
                x_mpx: if flip { edge } else { -edge },
                y_mpx: y,
                visible: false,
            };
            self.fishes.push(newcomer);
            proof {
                assert(self.fishes@.take(survivors.len() as int) =~= survivors);
            }
        }
    }
}

/// What is known of a freshly spawned fish: hidden, sitting at its spawn
/// edge, with direction, speed magnitude, depth and start delay inside the
/// documented ranges.
pub open spec fn spawned_fish_ok(f: Fish, now: int, w: int, h: int) -> bool {
    &&& !f.visible
    &&& f.x_mpx == edge_offset(f.flip, w)
    &&& now + 1_000_000 <= f.start_time_us <= now + 5_000_000
    &&& (if f.flip {
        -100_000 <= f.speed_mpx <= -20_000
    } else {
        20_000 <= f.speed_mpx <= 100_000
    })
    &&& -500 * h <= f.y_mpx <= -100 * h
}

} // verus!
