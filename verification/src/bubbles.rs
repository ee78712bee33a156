//! Ambient bubbles: short vertical strings of bubble sprites. Each group
//! grows one sprite per period until it reaches its height, then loses its
//! oldest sprite per period until it is empty, and is then retired. The
//! population of groups is capped; one spawn attempt is made per tick while
//! under the cap.

use vstd::prelude::*;

use crate::fish::MAX_SIM_TIME_US;
use crate::rng::sample_inclusive;

verus! {

/// At most this many bubble groups live at once.
pub const MAX_BUBBLES: usize = 16;

/// One bubble sprite, as a local offset inside its group, in milli-pixels.
#[derive(Clone, Copy, PartialEq, Eq, Structural)]
pub struct BubbleSprite {
    pub x_mpx: i64,
    pub y_mpx: i64,
}

/// The sprite emitted at index `i` of a group: a zig-zag column, six pixels
/// of rise per bubble.
pub open spec fn sprite_at(i: int) -> BubbleSprite {
    BubbleSprite { x_mpx: ((i % 2) * 6000) as i64, y_mpx: (i * 6000) as i64 }
}

/// How many sprites a group has emitted by step `step`: the growth phase
/// stops at the group's height.
pub open spec fn grown_count(step: int, height: int) -> int {
    if step <= height {
        step
    } else {
        height
    }
}

/// How many sprites a group has retired by step `step`: none until the
/// shrink phase begins.
pub open spec fn removed_count(step: int, height: int) -> int {
    if step <= height {
        0
    } else {
        step - height
    }
}

/// The sprites a group holds at a given step: the emitted ones that have not
/// been retired yet, oldest first.
pub open spec fn children_of(step: int, height: int) -> Seq<BubbleSprite> {
    Seq::new(
        (grown_count(step, height) - removed_count(step, height)) as nat,
        |k: int| sprite_at(removed_count(step, height) + k),
    )
}

/// One group of bubbles. Times are microseconds, distances milli-pixels.
pub struct Bubbles {
    /// When the group starts to emit (nothing shows until then).
    pub start_time_us: u64,
    /// The period between two emissions (and, later, two retirements).
    pub delta_between_bubbles_us: u64,
    /// The target number of sprites; the group dies at step `2 * height`.
    pub height: u64,
    /// How many emissions and retirements have happened so far.
    pub step: u64,
    /// Horizontal offset of the whole group.
    pub x_mpx: i64,
    /// Vertical origin of the whole group, near the bottom of the window.
    pub y_mpx: i64,
    /// The live sprites, oldest first; retirement takes the front.
    pub children: Vec<BubbleSprite>,
}

/// A group as unbounded integers and a sprite sequence, for specifications.
pub struct BubblesState {
    pub start: int,
    pub delta: int,
    pub height: int,
    pub step: int,
    pub x: int,
    pub y: int,
    pub children: Seq<BubbleSprite>,
}

impl Bubbles {
    /// The group's state as unbounded integers.
    pub open spec fn state(self) -> BubblesState {
        BubblesState {
            start: self.start_time_us as int,
            delta: self.delta_between_bubbles_us as int,
            height: self.height as int,
            step: self.step as int,
            x: self.x_mpx as int,
            y: self.y_mpx as int,
            children: self.children@,
        }
    }

    /// Ranges and shape every live group satisfies: the documented spawn
    /// parameter ranges, a step within its lifecycle, and exactly the
    /// sprites its step calls for.
    pub open spec fn well_formed(self) -> bool {
        &&& 4 <= self.height <= 16
        &&& 100_000 <= self.delta_between_bubbles_us <= 400_000
        &&& self.step <= 2 * self.height
        &&& self.start_time_us <= MAX_SIM_TIME_US + 2_000_000
        &&& -500_000_000 <= self.x_mpx <= 500_000_000
        &&& -1_000_000_000 <= self.y_mpx <= 1_000_000_000
        &&& self.children@ == children_of(self.step as int, self.height as int)
    }

    /// The group's step never runs ahead of the periods that have elapsed by
    /// time `t`: before the start nothing has happened; afterwards at most
    /// one step per full period.
    pub open spec fn consistent_at(self, t: int) -> bool {
        if t < self.start_time_us {
            self.step == 0
        } else {
            self.step <= steps_since(self.state(), t)
        }
    }
}

/// How many full emission periods have elapsed for a group by time `t`.
pub open spec fn steps_since(g: BubblesState, t: int) -> int {
    (t - g.start) / g.delta
}

/// Consistency survives the passage of time.
pub proof fn lemma_consistent_monotonic(g: Bubbles, t1: int, t2: int)
    requires
        g.well_formed(),
        g.consistent_at(t1),
        t1 <= t2,
    ensures
        g.consistent_at(t2),
{
    if t1 < g.start_time_us {
        if t2 >= g.start_time_us {
            vstd::arithmetic::div_mod::lemma_div_pos_is_pos(
                t2 - g.start_time_us, g.delta_between_bubbles_us as int);
        }
    } else {
        vstd::arithmetic::div_mod::lemma_div_is_ordered(
            t1 - g.start_time_us, t2 - g.start_time_us,
            g.delta_between_bubbles_us as int);
    }
}

/// One tick of a single group: nothing before its start time; retirement of
/// the whole group once its lifecycle completes; otherwise the growth phase
/// (one sprite per elapsed period, up to the height) or the shrink phase
/// (the oldest sprite leaves per elapsed period).
pub open spec fn advance_group_state(g: BubblesState, now: int) -> Option<BubblesState> {
    if now < g.start {
        Some(g)
    } else {
        let s = steps_since(g, now);
        if s >= 2 * g.height {
            None
        } else {
            let target = if g.step < g.height {
                grown_count(s, g.height)
            } else {
                s
            };
            Some(BubblesState {
                step: target,
                children: children_of(target, g.height),
                ..g
            })
        }
    }
}

/// The state of an optional group.
pub open spec fn opt_state(r: Option<Bubbles>) -> Option<BubblesState> {
    match r {
        Some(g) => Some(g.state()),
        None => None,
    }
}

/// The sprite emitted at index `i`, executable form.
fn sprite_for(i: u64) -> (r: BubbleSprite)
    requires
        i <= 32,
    ensures
        r == sprite_at(i as int),
{
    BubbleSprite { x_mpx: ((i % 2) * 6000) as i64, y_mpx: (i * 6000) as i64 }
}

/// A copy of a sprite queue.
fn clone_sprites(v: &Vec<BubbleSprite>) -> (r: Vec<BubbleSprite>)
    ensures
        r@ == v@,
{
    let mut r: Vec<BubbleSprite> = Vec::new();
    let n = v.len();
    let mut i: usize = 0;
    while i < n
        invariant
            i <= n,
            n == v@.len(),
            r@ =~= v@.take(i as int),
        decreases n - i,
    {
        r.push(v[i]);
        proof {
            assert(v@.take(i + 1) =~= v@.take(i as int).push(v@[i as int]));
        }
        i += 1;
    }
    proof {
        assert(v@.take(n as int) =~= v@);
    }
    r
}

/// One tick of a single group, as `advance_group_state` describes.
pub fn advance_group(g: &Bubbles, now_us: u64) -> (r: Option<Bubbles>)
    requires
        g.well_formed(),
        g.consistent_at(now_us as int),
        now_us <= MAX_SIM_TIME_US,
    ensures
        opt_state(r) == advance_group_state(g.state(), now_us as int),
        r matches Some(g2) ==> g2.well_formed() && g2.consistent_at(now_us as int),
{
    if now_us < g.start_time_us {
        return Some(Bubbles {
            start_time_us: g.start_time_us,
            delta_between_bubbles_us: g.delta_between_bubbles_us,
            height: g.height,
            step: g.step,
            x_mpx: g.x_mpx,
            y_mpx: g.y_mpx,
            children: clone_sprites(&g.children),
        });
    }
    let elapsed: u64 = now_us - g.start_time_us;
    let s: u64 = elapsed / g.delta_between_bubbles_us;
    if s >= 2 * g.height {
        return None;
    }
    if g.step < g.height {
        // Growth: emit the sprites for indices `step` up to `min(s, height)`.
        let target: u64 = if s < g.height {
            s
        } else {
            g.height
        };
        let mut children = clone_sprites(&g.children);
        let mut i: u64 = g.step;
        while i < target
            invariant
                g.step <= i <= target,
                target <= g.height <= 16,
                children@ =~= children_of(i as int, g.height as int),
            decreases target - i,
        {
            children.push(sprite_for(i));
            proof {
                assert(children_of(i + 1, g.height as int)
                    =~= children_of(i as int, g.height as int).push(sprite_at(i as int)));
            }
            i += 1;
        }
        Some(Bubbles {
            start_time_us: g.start_time_us,
            delta_between_bubbles_us: g.delta_between_bubbles_us,
            height: g.height,
            step: target,
            x_mpx: g.x_mpx,
            y_mpx: g.y_mpx,
            children: children,
        })
    } else {
        // Shrink: retire the oldest sprite for each period since `step`.
        let target: u64 = s;
        let mut children = clone_sprites(&g.children);
        let mut i: u64 = g.step;
        while i < target
            invariant
                g.step <= i <= target,
                g.height <= i,
                target < 2 * g.height,
                g.height <= 16,
                children@ =~= children_of(i as int, g.height as int),
            decreases target - i,
        {
            proof {
                assert(children@.len() == 2 * g.height - i);
            }
            let _oldest = children.remove(0);
            proof {
                assert(children@ =~= children_of(i + 1, g.height as int));
            }
            i += 1;
        }
        Some(Bubbles {
            start_time_us: g.start_time_us,
            delta_between_bubbles_us: g.delta_between_bubbles_us,
            height: g.height,
            step: target,
            x_mpx: g.x_mpx,
            y_mpx: g.y_mpx,
            children: children,
        })
    }
}

/// The groups' states, in order.
pub open spec fn states_of(gs: Seq<Bubbles>) -> Seq<BubblesState> {
    gs.map_values(|g: Bubbles| g.state())
}

/// The groups that survive one tick, in order.
pub open spec fn advanced_groups(ss: Seq<BubblesState>, now: int) -> Seq<BubblesState>
    decreases ss.len(),
{
    if ss.len() == 0 {
        Seq::empty()
    } else {
        let rest = advanced_groups(ss.drop_last(), now);
        match advance_group_state(ss.last(), now) {
            Some(g) => rest.push(g),
            None => rest,
        }
    }
}

/// Surviving groups are never more numerous than the groups that entered the
/// tick.
proof fn lemma_advanced_groups_len(ss: Seq<BubblesState>, now: int)
    ensures
        advanced_groups(ss, now).len() <= ss.len(),
    decreases ss.len(),
{
    if ss.len() > 0 {
        lemma_advanced_groups_len(ss.drop_last(), now);
    }
}

/// The horizontal offset of a group drawn at lattice index `kk` (an integer
/// in -15..=15): `kk/16` of the window's half-width, in milli-pixels.
pub open spec fn group_offset_mpx(kk: int, w: int) -> int {
    if kk >= 0 {
        kk * w * 1000 / 32
    } else {
        -((-kk) * w * 1000 / 32)
    }
}

/// What is known of a freshly spawned group: empty, at step zero, with its
/// randomized parameters inside the documented ranges, sitting near the
/// bottom of the window, horizontally on one of the 31 lattice offsets
/// `kk/16` of the half-width.
pub open spec fn spawned_group_ok(g: Bubbles, now: int, w: int, h: int) -> bool {
    &&& g.step == 0
    &&& g.children@.len() == 0
    &&& now <= g.start_time_us <= now + 2_000_000
    &&& 100_000 <= g.delta_between_bubbles_us <= 400_000
    &&& 4 <= g.height <= 16
    &&& (exists|kk: int| -15 <= kk <= 15 && g.x_mpx == #[trigger] group_offset_mpx(kk, w))
    &&& -(w * 500) <= g.x_mpx <= w * 500
    &&& g.y_mpx == -(h * 500) + 6000
}

/// The pool of bubble groups.
pub struct BubbleField {
    pub groups: Vec<Bubbles>,
    /// The time of the last tick; steps never run ahead of it.
    pub last_tick_us: u64,
}

impl BubbleField {
    /// The population respects the cap, every group its ranges, and no group
    /// has stepped past the last tick.
    pub open spec fn well_formed(self) -> bool {
        &&& self.groups@.len() <= MAX_BUBBLES
        &&& forall|i: int| 0 <= i < self.groups@.len()
            ==> #[trigger] self.groups@[i].well_formed()
        &&& forall|i: int| 0 <= i < self.groups@.len()
            ==> #[trigger] self.groups@[i].consistent_at(self.last_tick_us as int)
    }

    /// An empty pool.
    pub fn new() -> (f: BubbleField)
        ensures
            f.groups@.len() == 0,
            f.last_tick_us == 0,
            f.well_formed(),
    {
        BubbleField { groups: Vec::new(), last_tick_us: 0 }
    }

    /// One tick: every group advances through its lifecycle (and is retired
    /// when it completes), and when the pool was under its cap at the start
    /// of the tick one new group is spawned with randomized delay, period,
    /// height and horizontal offset. A group retired on this very tick still
    /// counts against the cap, so its slot is refilled only on the next
    /// tick. The survivors keep their order; the cap is never exceeded.
    pub fn advance(
        &mut self,
        now_us: u64,
        window_width_px: u64,
        window_height_px: u64,
        rng: &mut rand::rngs::StdRng,
    )
        requires
            old(self).well_formed(),
            old(self).last_tick_us <= now_us,
            now_us <= MAX_SIM_TIME_US,
            1 <= window_width_px <= 1_000_000,
            1 <= window_height_px <= 1_000_000,
        ensures
            final(self).well_formed(),
            final(self).groups@.len() <= MAX_BUBBLES,
            final(self).last_tick_us == now_us,
            ({
                let survivors = advanced_groups(states_of(old(self).groups@), now_us as int);
                if old(self).groups@.len() < MAX_BUBBLES {
                    &&& final(self).groups@.len() == survivors.len() + 1
                    &&& states_of(final(self).groups@).take(survivors.len() as int) == survivors
                    &&& spawned_group_ok(
                        final(self).groups@.last(), now_us as int,
                        window_width_px as int, window_height_px as int)
                } else {
                    states_of(final(self).groups@) == survivors
                }
            }),
    {
        let ghost t = now_us as int;
        let mut kept: Vec<Bubbles> = Vec::new();
        let n = self.groups.len();
        let mut i: usize = 0;
        proof {
            assert(states_of(self.groups@.take(0)) =~= Seq::<BubblesState>::empty());
        }
        while i < n
            invariant
                i <= n,
                n == self.groups@.len(),
                self.groups@ == old(self).groups@,
                old(self).well_formed(),
                old(self).last_tick_us <= now_us <= MAX_SIM_TIME_US,
                kept@.len() <= i,
                states_of(kept@) == advanced_groups(states_of(self.groups@.take(i as int)), t),
                t == now_us as int,
                forall|j: int| 0 <= j < kept@.len() ==> #[trigger] kept@[j].well_formed(),
                forall|j: int| 0 <= j < kept@.len() ==> #[trigger] kept@[j].consistent_at(t),
            decreases n - i,
        {
            let ghost prefix = self.groups@.take(i as int);
            let ghost kept0 = kept@;
            proof {
                lemma_consistent_monotonic(
                    self.groups@[i as int], old(self).last_tick_us as int, t);
            }
            match advance_group(&self.groups[i], now_us) {
                Some(g) => kept.push(g),
                None => {},
            }
            proof {
                assert(self.groups@.take(i + 1).drop_last() =~= prefix);
                assert(self.groups@.take(i + 1).last() == self.groups@[i as int]);
                assert(states_of(self.groups@.take(i + 1)).drop_last()
                    =~= states_of(prefix));
                assert(states_of(self.groups@.take(i + 1)).last()
                    == self.groups@[i as int].state());
                match advance_group_state(self.groups@[i as int].state(), t) {
                    Some(gs) => {
                        assert(states_of(kept@) =~= states_of(kept0).push(gs));
                    },
                    None => {
                        assert(states_of(kept@) =~= states_of(kept0));
                    },
                }
            }
            i += 1;
        }
        proof {
            assert(self.groups@.take(n as int) =~= self.groups@);
            lemma_advanced_groups_len(states_of(self.groups@), t);
            assert(states_of(self.groups@).len() == self.groups@.len());
        }
        self.groups = kept;
        self.last_tick_us = now_us;
        if n < MAX_BUBBLES {
            let ghost survivors = states_of(self.groups@);
            let delay = sample_inclusive(rng, 0, 2_000_000);
            let delta = sample_inclusive(rng, 100_000, 400_000);
            let height = sample_inclusive(rng, 4, 16);
            let k = sample_inclusive(rng, 0, 30);
            proof {
                assert((if k >= 15 { (k - 15) as int } else { (15 - k) as int })
                    * (window_width_px as int) * 1000 <= 15_000 * (window_width_px as int)
                    && 0 <= (if k >= 15 { (k - 15) as int } else { (15 - k) as int })
                    * (window_width_px as int) * 1000) by (nonlinear_arith)
                    requires
                        0 <= k <= 30,
                        1 <= window_width_px <= 1_000_000;
                vstd::arithmetic::div_mod::lemma_multiply_divide_le(
                    (if k >= 15 { (k - 15) as int } else { (15 - k) as int })
                        * (window_width_px as int) * 1000,
                    32, 500 * (window_width_px as int));
                vstd::arithmetic::div_mod::lemma_div_pos_is_pos(
                    (if k >= 15 { (k - 15) as int } else { (15 - k) as int })
                        * (window_width_px as int) * 1000, 32);
            }
            let x: i64 = if k >= 15 {
                (((k - 15) * window_width_px * 1000) / 32) as i64
            } else {
                -((((15 - k) * window_width_px * 1000) / 32) as i64)
            };
            proof {
                assert(x == group_offset_mpx(k as int - 15, window_width_px as int));
            }
            let y: i64 = -((window_height_px * 500) as i64) + 6000;
            let newcomer = Bubbles {
                start_time_us: now_us + delay,
                delta_between_bubbles_us: delta,
                height: height,
                step: 0,
                x_mpx: x,
                y_mpx: y,
                children: Vec::new(),
            };
            proof {
                assert(newcomer.children@ =~= children_of(0, height as int));
                if now_us >= newcomer.start_time_us {
                    vstd::arithmetic::div_mod::lemma_div_pos_is_pos(
                        now_us - newcomer.start_time_us, delta as int);
                }
            }
            self.groups.push(newcomer);
            proof {
                assert(states_of(self.groups@).take(survivors.len() as int) =~= survivors);
            }
        }
    }
}

} // verus!
