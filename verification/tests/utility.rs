use pathtracer::utility::{random_int, worker_count, workers};
use rand::rngs::StdRng;
use rand::SeedableRng;

#[test]
fn worker_count_leaves_one_processor() {
    assert_eq!(worker_count(8), 7);
    assert_eq!(worker_count(2), 1);
    assert_eq!(worker_count(65), 64);
}

#[test]
fn worker_count_is_at_least_one() {
    assert_eq!(worker_count(1), 1);
    assert_eq!(worker_count(0), 1);
}

#[test]
fn workers_on_this_machine() {
    assert!(workers() >= 1);
}

#[test]
fn random_int_stays_in_range() {
    let mut rng = StdRng::seed_from_u64(5);
    for _ in 0..2000 {
        let n = random_int(&mut rng, -3, 4);
        assert!((-3..=4).contains(&n));
    }
    assert_eq!(random_int(&mut rng, 5, 5), 5);
    assert_eq!(random_int(&mut rng, i32::MIN, i32::MIN), i32::MIN);
    let wide = random_int(&mut rng, i32::MIN, i32::MAX);
    assert!(i32::MIN <= wide && wide <= i32::MAX);
}

#[test]
fn random_int_is_not_an_end_of_the_range() {
    let mut rng = StdRng::seed_from_u64(6);
    let mut low = true;
    let mut high = true;
    for _ in 0..200 {
        let n = random_int(&mut rng, 0, 1_000_000);
        low = low && n == 0;
        high = high && n == 1_000_000;
    }
    assert!(!low && !high);
}

#[test]
fn same_seed_gives_the_same_draws() {
    let mut first = StdRng::seed_from_u64(9);
    let mut second = StdRng::seed_from_u64(9);
    for _ in 0..100 {
        assert_eq!(random_int(&mut first, 0, 1000), random_int(&mut second, 0, 1000));
    }
}
