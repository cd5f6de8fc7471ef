use physarum::params::{ConfigError, ParameterSet, MAX_SIDE};

fn sound_params() -> ParameterSet {
    ParameterSet {
        n_agents: 10,
        width: 64,
        height: 48,
        r_init: 5_000_000,
        deposit: 50_000,
        decay: 900_000,
        velocity: 1_000_000,
        phi_sens: 8_192,
        turn_speed: 2_000,
        sens_range_min: 1_000_000,
        sens_range_max: 5_000_000,
        n_fix: 3,
        r_fix_min: 1,
        r_fix_max: 8,
        seed: 7,
    }
}

#[test]
fn sound_parameters_are_accepted() {
    assert_eq!(sound_params().validate(), Ok(()));
}

#[test]
fn empty_domain_is_rejected() {
    let mut p = sound_params();
    p.width = 0;
    assert_eq!(p.validate(), Err(ConfigError::EmptyDomain));
    let mut q = sound_params();
    q.height = 0;
    assert_eq!(q.validate(), Err(ConfigError::EmptyDomain));
}

#[test]
fn oversized_domain_is_rejected() {
    let mut p = sound_params();
    p.width = MAX_SIDE + 1;
    assert_eq!(p.validate(), Err(ConfigError::DomainTooLarge));
    p.width = MAX_SIDE;
    assert_eq!(p.validate(), Ok(()));
}

#[test]
fn decay_must_lie_strictly_between_zero_and_one() {
    let mut p = sound_params();
    p.decay = 0;
    assert_eq!(p.validate(), Err(ConfigError::DecayOutOfRange));
    p.decay = 1_000_000;
    assert_eq!(p.validate(), Err(ConfigError::DecayOutOfRange));
    p.decay = 1_500_000;
    assert_eq!(p.validate(), Err(ConfigError::DecayOutOfRange));
    p.decay = 999_999;
    assert_eq!(p.validate(), Ok(()));
    p.decay = 1;
    assert_eq!(p.validate(), Ok(()));
}

#[test]
fn inverted_sensor_range_is_rejected() {
    let mut p = sound_params();
    p.sens_range_min = 5_000_001;
    assert_eq!(p.validate(), Err(ConfigError::SensorRangeInverted));
    p.sens_range_min = 5_000_000;
    assert_eq!(p.validate(), Ok(()));
}

#[test]
fn zero_placement_radius_is_rejected_when_agents_exist() {
    let mut p = sound_params();
    p.r_init = 0;
    assert_eq!(p.validate(), Err(ConfigError::InitRadiusEmpty));
    p.n_agents = 0;
    assert_eq!(p.validate(), Ok(()));
}

#[test]
fn empty_zone_radius_range_is_rejected_when_zones_exist() {
    let mut p = sound_params();
    p.r_fix_min = 8;
    assert_eq!(p.validate(), Err(ConfigError::ZoneRadiusRange));
    p.n_fix = 0;
    assert_eq!(p.validate(), Ok(()));
}

#[test]
fn zones_wider_than_the_domain_are_rejected() {
    let mut p = sound_params();
    p.r_fix_max = 25;
    assert_eq!(p.validate(), Err(ConfigError::ZoneTooWide));
    p.r_fix_max = 24;
    assert_eq!(p.validate(), Ok(()));
    p.height = 46;
    assert_eq!(p.validate(), Err(ConfigError::ZoneTooWide));
}

#[test]
fn first_fault_is_reported() {
    let mut p = sound_params();
    p.decay = 0;
    p.sens_range_min = 9_000_000;
    p.width = 0;
    assert_eq!(p.validate(), Err(ConfigError::EmptyDomain));
    p.width = 64;
    assert_eq!(p.validate(), Err(ConfigError::DecayOutOfRange));
    p.decay = 5;
    assert_eq!(p.validate(), Err(ConfigError::SensorRangeInverted));
}

#[test]
fn negative_and_zero_velocity_are_accepted() {
    let mut p = sound_params();
    p.velocity = 0;
    assert_eq!(p.validate(), Ok(()));
    p.velocity = i32::MIN;
    assert_eq!(p.validate(), Ok(()));
}

#[test]
fn random_parameters_lie_in_their_ranges() {
    let mut rng = rand::thread_rng();
    for _ in 0..200 {
        let p = ParameterSet::random(&mut rng, 12, 64, 48);
        assert_eq!((p.n_agents, p.width, p.height), (12, 64, 48));
        assert!(p.r_init >= 5_000_000 && p.r_init < 100_000_000);
        assert!(p.deposit >= 100 && p.deposit < 100_000);
        assert!(p.decay >= 100_000 && p.decay < 900_000);
        assert!(p.velocity >= 500_000 && p.velocity < 25_000_000);
        assert!(p.phi_sens >= 3_277 && p.phi_sens < 16_384);
        assert!(p.turn_speed >= 104 && p.turn_speed < 6_554);
        assert!(p.sens_range_min >= 1_000_000 && p.sens_range_min < 5_000_000);
        assert!(p.sens_range_max >= 5_000_000 && p.sens_range_max < 50_000_000);
        assert!(p.n_fix < 25);
        assert_eq!(p.r_fix_min, 1);
        assert!(p.r_fix_max >= 2 && p.r_fix_max < 10);
        assert!(p.seed >= 10_000_000 && p.seed < u32::MAX as u64);
        assert_eq!(p.validate(), Ok(()));
    }
}

#[test]
fn random_parameters_vary() {
    let mut rng = rand::thread_rng();
    let first = ParameterSet::random(&mut rng, 1, 64, 64);
    let mut differs = false;
    let mut above_lower_bound = false;
    for _ in 0..50 {
        let p = ParameterSet::random(&mut rng, 1, 64, 64);
        if p != first {
            differs = true;
        }
        if p.decay != 100_000 || p.r_init != 5_000_000 {
            above_lower_bound = true;
        }
    }
    assert!(differs);
    assert!(above_lower_bound);
}

#[test]
fn random_parameters_on_a_tiny_domain_report_the_zone_fault() {
    let mut rng = rand::thread_rng();
    for _ in 0..50 {
        let p = ParameterSet::random(&mut rng, 1, 2, 2);
        if p.n_fix > 0 {
            assert_eq!(p.validate(), Err(ConfigError::ZoneTooWide));
        } else {
            assert_eq!(p.validate(), Ok(()));
        }
    }
}
