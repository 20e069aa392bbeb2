use pathtracer::sort::sort_keyed;

#[test]
fn sorts_by_key() {
    let v = vec![(30i64, 0usize), (10, 1), (20, 2)];
    assert_eq!(sort_keyed(&v), vec![(10, 1), (20, 2), (30, 0)]);
}

#[test]
fn equal_keys_keep_their_places() {
    let v = vec![(5i64, 0usize), (1, 1), (5, 2), (1, 3), (5, 4)];
    assert_eq!(sort_keyed(&v), vec![(1, 1), (1, 3), (5, 0), (5, 2), (5, 4)]);
}

#[test]
fn sorts_negative_keys_and_short_inputs() {
    assert_eq!(sort_keyed(&Vec::new()), Vec::new());
    assert_eq!(sort_keyed(&vec![(7i64, 0usize)]), vec![(7, 0)]);
    let v = vec![(0i64, 0usize), (-5, 1), (i64::MAX, 2), (i64::MIN, 3)];
    assert_eq!(sort_keyed(&v), vec![(i64::MIN, 3), (-5, 1), (0, 0), (i64::MAX, 2)]);
}

#[test]
fn agrees_with_the_standard_sort() {
    let mut seed: u64 = 12345;
    for n in 0..60usize {
        let mut v = Vec::new();
        for i in 0..n {
            seed = seed.wrapping_mul(6364136223846793005).wrapping_add(1442695040888963407);
            v.push((((seed >> 33) % 7) as i64 - 3, i));
        }
        let mut expected = v.clone();
        expected.sort();
        assert_eq!(sort_keyed(&v), expected);
    }
}
