use rand::SeedableRng;
use rand::rngs::StdRng;

use trustworthy_dolphin::bubbles::BubbleField;
use trustworthy_dolphin::bubbles::Bubbles;
use trustworthy_dolphin::bubbles::advance_group;
use trustworthy_dolphin::fish::Fish;
use trustworthy_dolphin::fish::FishField;
use trustworthy_dolphin::fish::advance_fish;

fn test_group(start: u64, delta: u64, height: u64) -> Bubbles {
    Bubbles {
        start_time_us: start,
        delta_between_bubbles_us: delta,
        height,
        step: 0,
        x_mpx: 0,
        y_mpx: 0,
        children: Vec::new(),
    }
}

#[test]
fn bubble_group_grows_to_full_height() {
    // height 10, one bubble every 0.2 s: after 2.0 s exactly 10 children.
    let g = test_group(0, 200_000, 10);
    let g = advance_group(&g, 2_000_000).expect("still alive");
    assert_eq!(g.step, 10);
    assert_eq!(g.children.len(), 10);
    // The sprites zig-zag upward, six pixels per bubble.
    assert_eq!(g.children[0].x_mpx, 0);
    assert_eq!(g.children[0].y_mpx, 0);
    assert_eq!(g.children[3].x_mpx, 6_000);
    assert_eq!(g.children[3].y_mpx, 18_000);
}

#[test]
fn bubble_group_shrinks_from_the_oldest() {
    let g = test_group(0, 200_000, 10);
    let g = advance_group(&g, 2_000_000).expect("grown");
    // At 3.0 s the group has stepped 15 times: five oldest bubbles are gone.
    let g = advance_group(&g, 3_000_000).expect("shrinking");
    assert_eq!(g.step, 15);
    assert_eq!(g.children.len(), 5);
    assert_eq!(g.children[0].x_mpx, 6_000);
    assert_eq!(g.children[0].y_mpx, 30_000);
}

#[test]
fn bubble_group_dies_after_twice_its_height() {
    // After 20 steps (4.0 s) the whole group is destroyed.
    let g = test_group(0, 200_000, 10);
    let g = advance_group(&g, 2_000_000).expect("grown");
    assert!(advance_group(&g, 4_000_000).is_none());
}

#[test]
fn bubble_group_waits_for_its_start_time() {
    let g = test_group(5_000_000, 200_000, 10);
    let g = advance_group(&g, 1_000_000).expect("not started yet");
    assert_eq!(g.step, 0);
    assert_eq!(g.children.len(), 0);
}

#[test]
fn bubble_population_never_exceeds_its_cap() {
    let mut rng = StdRng::seed_from_u64(7);
    let mut field = BubbleField::new();
    let mut now: u64 = 0;
    let mut most = 0;
    for _ in 0..200 {
        field.advance(now, 800, 600, &mut rng);
        assert!(field.groups.len() <= 16);
        most = most.max(field.groups.len());
        for g in &field.groups {
            assert!((4..=16).contains(&g.height));
            assert!((100_000..=400_000).contains(&g.delta_between_bubbles_us));
            assert!(g.step <= 2 * g.height);
            assert!(g.children.len() <= g.height as usize);
        }
        now += 300_000;
    }
    // The pool actually fills up under a steady tick rate.
    assert_eq!(most, 16);
}

#[test]
fn spawned_bubble_group_sits_near_the_bottom() {
    let mut rng = StdRng::seed_from_u64(11);
    let mut field = BubbleField::new();
    field.advance(0, 800, 600, &mut rng);
    assert_eq!(field.groups.len(), 1);
    let g = &field.groups[0];
    assert_eq!(g.step, 0);
    assert_eq!(g.children.len(), 0);
    assert!(g.start_time_us <= 2_000_000);
    // The horizontal offset sits on the k/16 lattice of the half-width:
    // with an 800-pixel window, a multiple of 25_000 milli-pixels, at most
    // 15/16 of the half-width out.
    assert_eq!(g.x_mpx % 25_000, 0);
    assert!(g.x_mpx.abs() <= 375_000);
    assert_eq!(g.y_mpx, -(600 * 500) + 6000);
}

#[test]
fn no_spawn_on_the_tick_a_group_retires_at_cap() {
    let mut field = BubbleField::new();
    // One group completes its lifecycle (2 * 4 steps of 0.1 s) by 0.8 s; the
    // other fifteen have not started yet.
    field.groups.push(test_group(0, 100_000, 4));
    for i in 0..15 {
        field.groups.push(test_group(10_000_000 + i, 200_000, 10));
    }
    let mut rng = StdRng::seed_from_u64(1);
    // The pool is full at tick start, so the slot freed by the retirement is
    // not refilled on the same tick...
    field.advance(900_000, 800, 600, &mut rng);
    assert_eq!(field.groups.len(), 15);
    // ...but on the next one.
    field.advance(950_000, 800, 600, &mut rng);
    assert_eq!(field.groups.len(), 16);
}

fn test_fish(start: u64, flip: bool, speed: i64, x: i64) -> Fish {
    Fish {
        start_time_us: start,
        flip,
        speed_mpx: speed,
        x_mpx: x,
        y_mpx: -100_000,
        visible: false,
    }
}

#[test]
fn fish_crosses_and_exits_on_time() {
    // 50 px/s across an 800-px window: starts at -400 px, reaches +400 px
    // after exactly (400 - (-400)) / 50 = 16 s and dies on that tick.
    let f = test_fish(0, false, 50_000, -400_000);
    let alive = advance_fish(&f, 15_999_999, 800).expect("still inside");
    assert!(alive.visible);
    assert_eq!(alive.x_mpx, 399_999);
    assert!(advance_fish(&f, 16_000_000, 800).is_none());
}

#[test]
fn flipped_fish_swims_the_other_way() {
    let f = test_fish(0, true, -50_000, 400_000);
    let alive = advance_fish(&f, 8_000_000, 800).expect("midway");
    assert_eq!(alive.x_mpx, 0);
    assert!(advance_fish(&f, 16_000_000, 800).is_none());
}

#[test]
fn fish_stays_hidden_before_its_start_time() {
    let f = test_fish(3_000_000, false, 50_000, -400_000);
    let same = advance_fish(&f, 1_000_000, 800).expect("waiting");
    assert!(!same.visible);
    assert_eq!(same.x_mpx, -400_000);
}

#[test]
fn fish_population_never_exceeds_its_cap() {
    let mut rng = StdRng::seed_from_u64(21);
    let mut field = FishField::new();
    let mut now: u64 = 0;
    for _ in 0..300 {
        field.advance(now, 800, 600, &mut rng);
        assert!(field.fishes.len() <= 32);
        for f in &field.fishes {
            let mag = f.speed_mpx.abs();
            assert!((20_000..=100_000).contains(&mag));
            assert_eq!(f.speed_mpx < 0, f.flip);
            assert!(f.y_mpx >= -(600 * 500) && f.y_mpx <= -(600 * 100));
        }
        now += 250_000;
    }
    assert_eq!(field.fishes.len(), 32);
}

#[test]
fn no_spawn_on_the_tick_a_fish_exits_at_cap() {
    let mut field = FishField::new();
    // One fast fish reaches the far edge at 8 s; the other 31 have not
    // started yet.
    field.fishes.push(test_fish(0, false, 100_000, -400_000));
    for i in 0..31 {
        field.fishes.push(test_fish(100_000_000 + i, false, 50_000, -400_000));
    }
    let mut rng = StdRng::seed_from_u64(2);
    // The school is full at tick start, so the exit does not free a slot for
    // this tick's spawn attempt...
    field.advance(8_000_000, 800, 600, &mut rng);
    assert_eq!(field.fishes.len(), 31);
    // ...but for the next one.
    field.advance(8_100_000, 800, 600, &mut rng);
    assert_eq!(field.fishes.len(), 32);
}

#[test]
fn spawned_fish_starts_at_its_edge_invisible() {
    let mut rng = StdRng::seed_from_u64(3);
    let mut field = FishField::new();
    field.advance(0, 800, 600, &mut rng);
    assert_eq!(field.fishes.len(), 1);
    let f = &field.fishes[0];
    assert!(!f.visible);
    assert!((1_000_000..=5_000_000).contains(&f.start_time_us));
    if f.flip {
        assert_eq!(f.x_mpx, 400_000);
    } else {
        assert_eq!(f.x_mpx, -400_000);
    }
}
