use trustworthy_dolphin::faith::Faith;
use trustworthy_dolphin::faith::substep_deltas;
use trustworthy_dolphin::fxp::atan_fixed;
use trustworthy_dolphin::fxp::isqrt_u64;

#[test]
fn substeps_conserve_the_frame_delta() {
    for raw in [1u64, 9_999, 16_667, 16_668, 33_334, 100_000, 6_000_000] {
        let deltas = substep_deltas(raw);
        let sum: u64 = deltas.iter().sum();
        assert_eq!(sum, raw);
        for d in &deltas {
            assert!(*d > 0 && *d <= 16_667);
        }
    }
}

#[test]
fn substeps_split_as_full_steps_then_remainder() {
    assert_eq!(substep_deltas(0), Vec::<u64>::new());
    assert_eq!(substep_deltas(16_667), vec![16_667]);
    assert_eq!(substep_deltas(100_000), vec![16_667, 16_667, 16_667, 16_667, 16_667, 16_665]);
}

#[test]
fn spawn_sits_level_halfway_up() {
    let f = Faith::spawn(800);
    assert_eq!(f.position.x, 0);
    assert_eq!(f.position.y, 400_000);
    assert_eq!(f.velocity.x, 0);
    assert_eq!(f.velocity.y, 0);
    assert_eq!(f.rotation_urad, 0);
}

#[test]
fn gravity_pulls_above_the_water_line() {
    let mut f = Faith::spawn(600);
    // One full substep above water: dv = 980_665 * 16_667 / 100_000_000.
    f.step(16_667, -100_000, 600);
    assert_eq!(f.velocity.y, -163);
    // Position integrates the fresh velocity: -163 * 16_667 / 1_000_000.
    assert_eq!(f.position.y, 300_000 - 2);
    assert_eq!(f.position.x, 0);
    // Falling above water tilts the sprite downward.
    assert!(f.rotation_urad < 0);
}

#[test]
fn buoyancy_pushes_up_when_submerged() {
    let mut f = Faith::spawn(600);
    f.position.y = -200_000;
    // Submerged 200 pixels below the line: dv = isqrt(200_000_000) * dt / 1e6.
    f.step(16_667, 0, 600);
    assert_eq!(isqrt_u64(200_000_000), 14_142);
    assert_eq!(f.velocity.y, 14_142 * 16_667 / 1_000_000);
    assert_eq!(f.velocity.y, 235);
    // Submerged orientation flips by half a turn.
    assert!(f.rotation_urad < -1_570_796);
}

#[test]
fn advance_runs_the_whole_stretched_delta() {
    let mut a = Faith::spawn(600);
    let mut b = Faith::spawn(600);
    // A 10 ms frame is stretched to 60 ms and split into capped substeps.
    a.advance(10_000, -100_000, 600);
    for d in substep_deltas(60_000) {
        b.step(d, -100_000, 600);
    }
    assert_eq!(a.position.y, b.position.y);
    assert_eq!(a.velocity.y, b.velocity.y);
    assert_eq!(a.rotation_urad, b.rotation_urad);
}

#[test]
fn long_simulation_settles_near_the_water_line() {
    let mut f = Faith::spawn(600);
    let water = -100_000;
    for _ in 0..2000 {
        f.advance(16_000, water, 600);
        assert!(f.position.y.abs() <= 100_000_000_000);
        assert!(f.velocity.y.abs() <= 100_000_000_000);
    }
    // After many ticks the character oscillates near the surface rather than
    // sinking or escaping.
    assert!(f.position.y > water - 600_000 && f.position.y < 600_000);
}

#[test]
fn zero_length_frame_changes_nothing() {
    let mut f = Faith::spawn(600);
    f.advance(10_000, -100_000, 600);
    let (py, vy, rot) = (f.position.y, f.velocity.y, f.rotation_urad);
    f.advance(0, -100_000, 600);
    assert_eq!(f.position.y, py);
    assert_eq!(f.velocity.y, vy);
    assert_eq!(f.rotation_urad, rot);
    assert_eq!(f.position.x, 0);
    assert_eq!(f.velocity.x, 0);
}

#[test]
fn arctangent_reference_points() {
    assert_eq!(atan_fixed(0), 0);
    assert_eq!(atan_fixed(1_000_000), 785_398);
    assert_eq!(atan_fixed(-1_000_000), -785_398);
    // Large arguments approach a quarter turn.
    assert!(atan_fixed(1_000_000_000_000) > 1_560_000);
    assert!(atan_fixed(1_000_000_000_000) <= 1_570_796);
}

#[test]
fn integer_square_roots() {
    assert_eq!(isqrt_u64(0), 0);
    assert_eq!(isqrt_u64(1), 1);
    assert_eq!(isqrt_u64(8), 2);
    assert_eq!(isqrt_u64(9), 3);
    assert_eq!(isqrt_u64(u64::MAX), 4_294_967_295);
}
