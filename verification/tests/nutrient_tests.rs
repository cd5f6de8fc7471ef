use physarum::nutrient::NutrientOverlay;
use physarum::params::ParameterSet;

fn zone_params(n_fix: u32) -> ParameterSet {
    ParameterSet {
        n_agents: 0,
        width: 32,
        height: 24,
        r_init: 1,
        deposit: 1,
        decay: 500_000,
        velocity: 0,
        phi_sens: 0,
        turn_speed: 0,
        sens_range_min: 0,
        sens_range_max: 0,
        n_fix,
        r_fix_min: 2,
        r_fix_max: 6,
        seed: 0,
    }
}

#[test]
fn blank_overlay_is_all_zero() {
    let o = NutrientOverlay::blank(5, 4);
    assert_eq!(o.width, 5);
    assert_eq!(o.height, 4);
    assert_eq!(o.cells, vec![0u32; 20]);
    assert!(o.matches(5, 4));
}

#[test]
fn stamp_writes_a_cone() {
    let mut o = NutrientOverlay::blank(8, 8);
    o.stamp(3, 3, 2);
    assert_eq!(o.level(3 * 8 + 3), 1_000_000);
    assert_eq!(o.level(3 * 8 + 2), 500_000);
    assert_eq!(o.level(3 * 8 + 4), 500_000);
    assert_eq!(o.level(2 * 8 + 3), 500_000);
    assert_eq!(o.level(2 * 8 + 2), 292_894);
    assert_eq!(o.level(4 * 8 + 4), 292_894);
    assert_eq!(o.level(1 * 8 + 1), 0);
    assert_eq!(o.level(1 * 8 + 3), 0);
}

#[test]
fn stamp_covers_the_half_open_square_only() {
    let mut o = NutrientOverlay::blank(8, 8);
    for c in o.cells.iter_mut() {
        *c = 77;
    }
    o.stamp(3, 3, 2);
    for y in 0..8usize {
        for x in 0..8usize {
            let inside = (1..5).contains(&x) && (1..5).contains(&y);
            let v = o.cells[y * 8 + x];
            if inside {
                assert_ne!(v, 77);
            } else {
                assert_eq!(v, 77);
            }
        }
    }
    assert_eq!(o.cells[1 * 8 + 1], 0);
    assert_eq!(o.cells[3 * 8 + 5], 77);
    assert_eq!(o.cells[5 * 8 + 3], 77);
}

#[test]
fn later_stamp_overwrites_earlier() {
    let mut o = NutrientOverlay::blank(8, 8);
    o.stamp(3, 3, 2);
    o.stamp(4, 4, 1);
    assert_eq!(o.cells[4 * 8 + 4], 1_000_000);
    assert_eq!(o.cells[3 * 8 + 3], 0);
    assert_eq!(o.cells[3 * 8 + 4], 0);
    assert_eq!(o.cells[2 * 8 + 2], 292_894);
}

#[test]
fn stamp_of_radius_zero_changes_nothing() {
    let mut o = NutrientOverlay::blank(4, 4);
    o.stamp(2, 2, 0);
    assert_eq!(o.cells, vec![0u32; 16]);
}

#[test]
fn stamp_may_touch_the_border() {
    let mut o = NutrientOverlay::blank(4, 4);
    o.stamp(2, 2, 2);
    assert_eq!(o.cells[2 * 4 + 2], 1_000_000);
    assert_eq!(o.cells[0], 0);
    assert_eq!(o.cells[3 * 4 + 3], 292_894);
}

#[test]
fn matches_checks_shape_and_strength() {
    let mut o = NutrientOverlay::blank(4, 3);
    assert!(o.matches(4, 3));
    assert!(!o.matches(3, 4));
    o.cells[5] = 1_000_000;
    assert!(o.matches(4, 3));
    o.cells[5] = 1_000_001;
    assert!(!o.matches(4, 3));
    o.cells[5] = 0;
    o.cells.push(0);
    assert!(!o.matches(4, 3));
    let bad = NutrientOverlay { width: 0, height: 0, cells: Vec::new() };
    assert!(!bad.matches(0, 0));
}

#[test]
fn scatter_without_zones_is_blank() {
    let mut rng = rand::thread_rng();
    let o = NutrientOverlay::scatter(&mut rng, &zone_params(0));
    assert_eq!(o.cells, vec![0u32; 32 * 24]);
}

#[test]
fn scatter_lays_zones_inside_the_domain() {
    let mut rng = rand::thread_rng();
    for _ in 0..20 {
        let o = NutrientOverlay::scatter(&mut rng, &zone_params(4));
        assert!(o.matches(32, 24));
        assert!(o.cells.iter().any(|&v| v == 1_000_000));
    }
}

#[test]
fn scatter_places_zones_at_varying_centres() {
    let mut rng = rand::thread_rng();
    let first = NutrientOverlay::scatter(&mut rng, &zone_params(1));
    let mut differs = false;
    for _ in 0..40 {
        let o = NutrientOverlay::scatter(&mut rng, &zone_params(1));
        if o.cells != first.cells {
            differs = true;
        }
    }
    assert!(differs);
}
