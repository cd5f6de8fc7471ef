use physarum::field::{Field, StepError};
use physarum::params::ConfigError;

fn field_with(width: u32, height: u32, cells: Vec<u64>) -> Field {
    let mut f = Field::new(width, height).unwrap();
    assert_eq!(f.current.len(), cells.len());
    f.current = cells;
    f
}

#[test]
fn new_field_is_empty_and_shaped() {
    let f = Field::new(5, 3).unwrap();
    assert_eq!(f.width, 5);
    assert_eq!(f.height, 3);
    assert_eq!(f.current, vec![0u64; 15]);
    assert_eq!(f.next.len(), 15);
    assert_eq!(f.cell_count(), 15);
}

#[test]
fn new_field_rejects_empty_domain() {
    assert_eq!(Field::new(0, 3).err(), Some(ConfigError::EmptyDomain));
    assert_eq!(Field::new(3, 0).err(), Some(ConfigError::EmptyDomain));
    assert_eq!(Field::new(0, 40_000).err(), Some(ConfigError::EmptyDomain));
}

#[test]
fn new_field_rejects_oversized_domain() {
    assert_eq!(Field::new(32_769, 1).err(), Some(ConfigError::DomainTooLarge));
    assert_eq!(Field::new(1, 40_000).err(), Some(ConfigError::DomainTooLarge));
    assert!(Field::new(32_768, 1).is_ok());
}

#[test]
fn uniform_field_decays_uniformly() {
    let mut f = field_with(4, 3, vec![7_000_000; 12]);
    f.diffuse(250_000);
    assert_eq!(f.current, vec![1_750_000u64; 12]);
}

#[test]
fn uniform_field_decay_rounds_down() {
    let mut f = field_with(3, 3, vec![5; 9]);
    f.diffuse(700_000);
    assert_eq!(f.current, vec![3u64; 9]);
}

#[test]
fn uniform_decay_on_single_cell_domain() {
    let mut f = field_with(1, 1, vec![9_000_000]);
    f.diffuse(500_000);
    assert_eq!(f.current, vec![4_500_000u64]);
}

#[test]
fn diffusion_with_factor_one_keeps_uniform_field() {
    let mut f = field_with(2, 2, vec![u64::MAX; 4]);
    f.diffuse(1_000_000);
    assert_eq!(f.current, vec![u64::MAX; 4]);
}

#[test]
fn diffusion_wraps_around_the_edges() {
    let mut cells = vec![0u64; 16];
    cells[0] = 1_000_000;
    let mut f = field_with(4, 4, cells);
    f.diffuse(500_000);
    assert_eq!(
        f.current,
        vec![55555, 55555, 0, 55555, 55555, 55555, 0, 55555, 0, 0, 0, 0, 55555, 55555, 0, 55555]
    );
}

#[test]
fn diffusion_keeps_the_input_in_the_other_buffer() {
    let mut cells = vec![0u64; 16];
    cells[5] = 9_000_000;
    let mut f = field_with(4, 4, cells.clone());
    f.diffuse(900_000);
    assert_eq!(f.next, cells);
}

#[test]
fn lone_peak_spreads_and_fades() {
    let mut cells = vec![0u64; 16];
    cells[5] = 9_000_000;
    let mut f = field_with(4, 4, cells);
    f.diffuse(900_000);
    assert_eq!(
        f.current,
        vec![
            900000, 900000, 900000, 0, 900000, 900000, 900000, 0, 900000, 900000, 900000, 0, 0, 0,
            0, 0
        ]
    );
    f.diffuse(900_000);
    assert_eq!(
        f.current,
        vec![
            360000, 540000, 360000, 360000, 540000, 810000, 540000, 540000, 360000, 540000,
            360000, 360000, 360000, 540000, 360000, 360000
        ]
    );
    f.diffuse(900_000);
    assert_eq!(
        f.current,
        vec![
            441000, 441000, 441000, 378000, 441000, 441000, 441000, 378000, 441000, 441000,
            441000, 378000, 378000, 378000, 378000, 324000
        ]
    );
}

#[test]
fn deposits_accumulate_per_cell() {
    let mut f = field_with(4, 4, vec![10; 16]);
    let r = f.deposit(&vec![0, 0, 5, 15, 0], 3);
    assert_eq!(r, Ok(()));
    let mut expected = vec![10u64; 16];
    expected[0] = 19;
    expected[5] = 13;
    expected[15] = 13;
    assert_eq!(f.current, expected);
}

#[test]
fn deposits_are_conserved() {
    let mut f = field_with(4, 4, vec![10; 16]);
    let before: u64 = f.current.iter().sum();
    f.deposit(&vec![0, 0, 5, 15, 0, 7, 7], 250_000).unwrap();
    let after: u64 = f.current.iter().sum();
    assert_eq!(after, before + 7 * 250_000);
}

#[test]
fn deposits_do_not_depend_on_order() {
    let mut a = field_with(3, 2, vec![1, 2, 3, 4, 5, 6]);
    let mut b = field_with(3, 2, vec![1, 2, 3, 4, 5, 6]);
    a.deposit(&vec![0, 5, 5, 2, 0, 5], 11).unwrap();
    b.deposit(&vec![5, 5, 5, 0, 0, 2], 11).unwrap();
    assert_eq!(a.current, b.current);
    assert_eq!(a.current, vec![23, 2, 14, 4, 5, 39]);
}

#[test]
fn empty_deposit_pass_changes_nothing() {
    let mut f = field_with(3, 2, vec![1, 2, 3, 4, 5, 6]);
    assert_eq!(f.deposit(&Vec::new(), 1_000), Ok(()));
    assert_eq!(f.current, vec![1, 2, 3, 4, 5, 6]);
}

#[test]
fn deposit_up_to_the_limit_is_accepted() {
    let mut cells = vec![0u64; 4];
    cells[2] = u64::MAX - 5;
    let mut f = field_with(2, 2, cells);
    assert_eq!(f.deposit(&vec![2], 5), Ok(()));
    assert_eq!(f.current[2], u64::MAX);
}

#[test]
fn deposit_past_the_limit_is_reported_and_leaves_the_field() {
    let mut cells = vec![7u64; 4];
    cells[2] = u64::MAX - 5;
    let mut f = field_with(2, 2, cells.clone());
    assert_eq!(f.deposit(&vec![1, 2, 3], 6), Err(StepError::NumericDegeneracy));
    assert_eq!(f.current, cells);
}

#[test]
fn repeated_deposits_past_the_limit_are_reported() {
    let mut cells = vec![0u64; 4];
    cells[1] = u64::MAX - 10;
    let mut f = field_with(2, 2, cells.clone());
    assert_eq!(f.deposit(&vec![1, 0, 1, 1], 4), Err(StepError::NumericDegeneracy));
    assert_eq!(f.current, cells);
    assert_eq!(f.deposit(&vec![1, 0, 1], 4), Ok(()));
    assert_eq!(f.current[1], u64::MAX - 2);
}

#[test]
fn swap_exchanges_the_buffers() {
    let mut f = field_with(2, 1, vec![1, 2]);
    f.next = vec![8, 9];
    f.swap();
    assert_eq!(f.current, vec![8, 9]);
    assert_eq!(f.next, vec![1, 2]);
    f.swap();
    assert_eq!(f.current, vec![1, 2]);
    assert_eq!(f.next, vec![8, 9]);
}

#[test]
fn level_reads_the_settled_grid() {
    let f = field_with(3, 1, vec![4, 5, 6]);
    assert_eq!(f.level(0), 4);
    assert_eq!(f.level(2), 6);
}

#[test]
fn diffusion_keeps_at_most_the_decayed_total() {
    let cells: Vec<u64> = (0..35u64).map(|i| (i * 7919) % 1000 + 1).collect();
    let mut f = field_with(7, 5, cells);
    let mut total: u64 = f.current.iter().sum();
    for _ in 0..30 {
        f.diffuse(900_000);
        let next: u64 = f.current.iter().sum();
        assert!(1_000_000 * next <= 900_000 * total);
        assert!(next < total || total == 0);
        total = next;
    }
}
