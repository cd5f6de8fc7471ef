use physarum::agent::{cell_at, mix, steer, Agent, Turn};
use physarum::field::Field;
use physarum::nutrient::NutrientOverlay;
use physarum::params::ParameterSet;

fn agent_params() -> ParameterSet {
    ParameterSet {
        n_agents: 1,
        width: 8,
        height: 8,
        r_init: 1_000_000,
        deposit: 0,
        decay: 500_000,
        velocity: 1_000_000,
        phi_sens: 16_384,
        turn_speed: 16_384,
        sens_range_min: 1_000_000,
        sens_range_max: 1_000_000,
        n_fix: 0,
        r_fix_min: 1,
        r_fix_max: 2,
        seed: 42,
    }
}

fn trail(cells: &[(usize, u64)]) -> Field {
    let mut f = Field::new(8, 8).unwrap();
    for &(c, v) in cells.iter() {
        f.current[c] = v;
    }
    f
}

fn centred() -> Agent {
    Agent { x: 4_500_000, y: 4_500_000, phi: 0 }
}

#[test]
fn draw_is_a_fixed_function_of_its_arguments() {
    assert_eq!(mix(0, 0, 0, 0), 19_088_743);
    assert_eq!(mix(1, 2, 3, 1), 2_279_014_425);
    assert_eq!(mix(u64::MAX, u64::MAX, u64::MAX, 1), 3_390_967_666);
    assert_eq!(mix(42, 7, 0, 0), 1_638_347_218);
    assert_eq!(mix(42, 7, 0, 1), 1_828_849_343);
    assert_eq!(mix(42, 7, 0, 1), mix(42, 7, 0, 1));
}

#[test]
fn cell_under_a_position() {
    assert_eq!(cell_at(3_999_999, 1_000_000, 4, 4), 7);
    assert_eq!(cell_at(0, 0, 4, 4), 0);
    assert_eq!(cell_at(999_999, 999_999, 4, 4), 0);
    assert_eq!(cell_at(3_999_999, 3_999_999, 4, 4), 15);
    assert_eq!(Agent { x: 1_000_000, y: 2_500_000, phi: 9 }.cell(4, 4), 9);
}

#[test]
fn steering_prefers_the_centre_on_ties() {
    assert_eq!(steer(0, 0, 0, true), Turn::Straight);
    assert_eq!(steer(0, 0, 0, false), Turn::Straight);
    assert_eq!(steer(5, 5, 1, true), Turn::Straight);
    assert_eq!(steer(1, 5, 5, false), Turn::Straight);
    assert_eq!(steer(1, 5, 2, false), Turn::Straight);
}

#[test]
fn steering_turns_toward_the_higher_side() {
    assert_eq!(steer(7, 5, 1, false), Turn::Left);
    assert_eq!(steer(1, 5, 7, true), Turn::Right);
    assert_eq!(steer(7, 0, 6, false), Turn::Left);
    assert_eq!(steer(6, 0, 7, true), Turn::Right);
}

#[test]
fn steering_lets_the_coin_break_side_ties() {
    assert_eq!(steer(7, 5, 7, true), Turn::Left);
    assert_eq!(steer(7, 5, 7, false), Turn::Right);
}

#[test]
fn sensors_look_left_ahead_and_right() {
    let a = centred();
    assert_eq!(a.probe(-16_384, 1_000_000, 8, 8), 28);
    assert_eq!(a.probe(0, 1_000_000, 8, 8), 37);
    assert_eq!(a.probe(16_384, 1_000_000, 8, 8), 44);
}

#[test]
fn sensors_wrap_around_the_domain() {
    let a = Agent { x: 0, y: 0, phi: 0 };
    assert_eq!(a.probe(0, 1_000_000, 4, 4), 1);
    assert_eq!(a.probe(-16_384, 1_000_000, 4, 4), 12);
    assert_eq!(a.probe(32_768, 1_000_000, 4, 4), 3);
    assert_eq!(a.probe(0, 4_000_000, 4, 4), 0);
}

#[test]
fn agent_turns_right_toward_trail() {
    let p = agent_params();
    let f = trail(&[(44, 10)]);
    let o = NutrientOverlay::blank(8, 8);
    assert_eq!(centred().step(0, 0, &p, &f, &o), Agent { x: 4_500_000, y: 5_500_000, phi: 16_384 });
}

#[test]
fn agent_turns_left_toward_trail() {
    let p = agent_params();
    let f = trail(&[(28, 10)]);
    let o = NutrientOverlay::blank(8, 8);
    assert_eq!(centred().step(0, 0, &p, &f, &o), Agent { x: 4_500_000, y: 3_500_000, phi: 49_152 });
}

#[test]
fn agent_goes_straight_when_centre_is_highest() {
    let p = agent_params();
    let f = trail(&[(37, 10), (44, 9)]);
    let o = NutrientOverlay::blank(8, 8);
    assert_eq!(centred().step(0, 0, &p, &f, &o), Agent { x: 5_500_000, y: 4_500_000, phi: 0 });
}

#[test]
fn agent_goes_straight_on_an_empty_field() {
    let p = agent_params();
    let f = trail(&[]);
    let o = NutrientOverlay::blank(8, 8);
    assert_eq!(centred().step(0, 0, &p, &f, &o), Agent { x: 5_500_000, y: 4_500_000, phi: 0 });
}

#[test]
fn agent_goes_straight_when_centre_ties_a_side() {
    let p = agent_params();
    let f = trail(&[(37, 10), (28, 10)]);
    let o = NutrientOverlay::blank(8, 8);
    assert_eq!(centred().step(0, 0, &p, &f, &o), Agent { x: 5_500_000, y: 4_500_000, phi: 0 });
}

#[test]
fn side_tie_is_broken_by_the_seeded_draw() {
    let f = trail(&[(28, 5), (44, 5)]);
    let o = NutrientOverlay::blank(8, 8);
    let p = agent_params();
    assert_eq!(centred().step(7, 0, &p, &f, &o), Agent { x: 4_500_000, y: 5_500_000, phi: 16_384 });
    let mut q = agent_params();
    q.seed = 43;
    assert_eq!(centred().step(7, 0, &q, &f, &o), Agent { x: 4_500_000, y: 3_500_000, phi: 49_152 });
}

#[test]
fn nutrient_adds_to_what_is_sensed() {
    let p = agent_params();
    let f = trail(&[(44, 400)]);
    let mut o = NutrientOverlay::blank(8, 8);
    o.cells[28] = 500;
    assert_eq!(centred().step(0, 0, &p, &f, &o), Agent { x: 4_500_000, y: 3_500_000, phi: 49_152 });
}

#[test]
fn negative_velocity_moves_backward() {
    let mut p = agent_params();
    p.velocity = -1_000_000;
    let f = trail(&[]);
    let o = NutrientOverlay::blank(8, 8);
    assert_eq!(centred().step(0, 0, &p, &f, &o), Agent { x: 3_500_000, y: 4_500_000, phi: 0 });
}

#[test]
fn zero_velocity_only_steers() {
    let mut p = agent_params();
    p.velocity = 0;
    let f = trail(&[(44, 1)]);
    let o = NutrientOverlay::blank(8, 8);
    assert_eq!(centred().step(0, 0, &p, &f, &o), Agent { x: 4_500_000, y: 4_500_000, phi: 16_384 });
}

#[test]
fn movement_wraps_around_the_domain() {
    let mut p = agent_params();
    p.velocity = 2_500_000;
    let f = trail(&[]);
    let o = NutrientOverlay::blank(8, 8);
    let a = Agent { x: 7_900_000, y: 100_000, phi: 0 };
    assert_eq!(a.step(0, 0, &p, &f, &o), Agent { x: 2_400_000, y: 100_000, phi: 0 });
}

#[test]
fn sensing_distance_is_drawn_between_the_bounds() {
    let mut p = agent_params();
    p.sens_range_max = 3_000_000;
    let f = trail(&[(38, 10), (44, 9)]);
    let o = NutrientOverlay::blank(8, 8);
    let a = Agent { x: 4_900_000, y: 4_500_000, phi: 0 };
    assert_eq!(a.step(7, 0, &p, &f, &o), Agent { x: 5_900_000, y: 4_500_000, phi: 0 });
}

#[test]
fn angles_beyond_a_turn_are_reduced() {
    let mut p = agent_params();
    p.turn_speed = 65_536 + 100;
    p.phi_sens = 65_536 + 16_384;
    let f = trail(&[(44, 10)]);
    let o = NutrientOverlay::blank(8, 8);
    assert_eq!(centred().step(0, 0, &p, &f, &o), Agent { x: 5_499_953, y: 4_509_759, phi: 100 });
}

#[test]
fn stepped_agent_is_inside_for_extreme_velocities() {
    let f = trail(&[]);
    let o = NutrientOverlay::blank(8, 8);
    for &v in [i32::MIN, -8_000_001, -1, 0, 1, 8_000_001, i32::MAX].iter() {
        let mut p = agent_params();
        p.velocity = v;
        let mut a = Agent { x: 7_999_999, y: 0, phi: 12_345 };
        for frame in 0..20u64 {
            a = a.step(3, frame, &p, &f, &o);
            assert!(a.x < 8_000_000);
            assert!(a.y < 8_000_000);
            assert!(a.phi < 65_536);
        }
    }
}

#[test]
fn placement_relative_to_the_centre() {
    assert_eq!(
        Agent::placed(100, 100, 3_500_000, 8_192, 70_000),
        Agent { x: 52_470_587, y: 52_470_587, phi: 4_464 }
    );
    assert_eq!(Agent::placed(4, 4, 0, 0, 0), Agent { x: 2_000_000, y: 2_000_000, phi: 0 });
}

#[test]
fn placement_wraps_a_radius_larger_than_the_domain() {
    let a = Agent::placed(4, 4, 4_000_000_000, 32_768, 0);
    assert_eq!(a, Agent { x: 2_000_000, y: 2_000_000, phi: 0 });
}

#[test]
fn spawned_agents_are_inside_the_domain() {
    let mut rng = rand::thread_rng();
    let mut p = agent_params();
    p.n_agents = 500;
    p.r_init = 20_000_000;
    let agents = Agent::spawn_population(&mut rng, &p);
    assert_eq!(agents.len(), 500);
    for a in agents.iter() {
        assert!(a.x < 8_000_000 && a.y < 8_000_000 && a.phi < 65_536);
    }
}

#[test]
fn spawned_agents_are_spread_out() {
    let mut rng = rand::thread_rng();
    let mut p = agent_params();
    p.width = 1_000;
    p.height = 1_000;
    p.r_init = 100_000_000;
    let first = Agent::spawn(&mut rng, &p);
    let mut differs = false;
    for _ in 0..50 {
        let a = Agent::spawn(&mut rng, &p);
        assert!(a.x < 1_000_000_000 && a.y < 1_000_000_000 && a.phi < 65_536);
        assert!(a.x >= 400_000_000 && a.x <= 600_000_000);
        assert!(a.y >= 400_000_000 && a.y <= 600_000_000);
        if a != first {
            differs = true;
        }
    }
    assert!(differs);
}
