use pathtracer::scene::{assemble, band, band_seed, bands, mend, Band, RenderError};

#[test]
fn band_of_even_split() {
    assert_eq!(band(12, 3, 0), Band { start: 0, end: 4 });
    assert_eq!(band(12, 3, 1), Band { start: 4, end: 8 });
    assert_eq!(band(12, 3, 2), Band { start: 8, end: 12 });
}

#[test]
fn last_band_takes_remainder() {
    let v = bands(10, 4);
    assert_eq!(
        v,
        vec![
            Band { start: 0, end: 2 },
            Band { start: 2, end: 4 },
            Band { start: 4, end: 6 },
            Band { start: 6, end: 10 },
        ]
    );
}

#[test]
fn more_workers_than_rows() {
    let v = bands(2, 5);
    assert_eq!(v.len(), 5);
    for b in &v[..4] {
        assert_eq!(b.start, b.end);
    }
    assert_eq!(v[4], Band { start: 0, end: 2 });
}

#[test]
fn rows_covered_exactly_once() {
    for height in 1u32..=60 {
        for workers in 1usize..=64 {
            let v = bands(height, workers);
            let mut seen = vec![0u32; height as usize];
            for b in &v {
                assert!(b.start <= b.end && b.end <= height);
                for row in b.start..b.end {
                    seen[row as usize] += 1;
                }
            }
            assert!(seen.iter().all(|&n| n == 1));
        }
    }
}

#[test]
fn bands_follow_one_another_up_to_the_height() {
    for height in 1u32..=4096 {
        for workers in 1usize..=64 {
            let v = bands(height, workers);
            assert_eq!(v.len(), workers);
            assert_eq!(v[0].start, 0);
            for i in 1..workers {
                assert_eq!(v[i - 1].end, v[i].start);
                assert!(v[i].start <= v[i].end);
            }
            assert_eq!(v[workers - 1].end, height);
        }
    }
}

#[test]
fn assemble_places_rows_top_down() {
    // 2 columns, 3 rows, 2 workers: band 0 = row 0, band 1 = rows 1..3.
    let top: Vec<u32> = vec![20, 21, 10, 11];
    let bottom: Vec<u32> = vec![0, 1];
    let image = assemble(2, 3, &vec![Some(top), Some(bottom)]).unwrap();
    for y in 0..3u32 {
        for x in 0..2u32 {
            assert_eq!(image.at(x, y), y * 10 + x);
        }
    }
}

#[test]
fn assemble_reports_faults() {
    let none: Vec<Option<Vec<u8>>> = Vec::new();
    assert_eq!(assemble(2, 3, &none).err(), Some(RenderError::NoBands));
    let missing: Vec<Option<Vec<u8>>> = vec![Some(vec![0; 4]), None];
    assert_eq!(assemble(2, 3, &missing).err(), Some(RenderError::BandFailed { band: 0 }));
    let short: Vec<Option<Vec<u8>>> = vec![Some(vec![0; 3]), Some(vec![0; 2])];
    assert_eq!(assemble(2, 3, &short).err(), Some(RenderError::BandSize { band: 1 }));
}

#[test]
fn mend_keeps_sound_results() {
    let chunks: Vec<Option<Vec<u8>>> = vec![Some(vec![20, 21, 10, 11]), Some(vec![0, 1])];
    assert_eq!(mend(2, 3, &chunks, 99), chunks);
}

#[test]
fn mend_fills_faulty_bands_with_the_sentinel() {
    // 2 columns, 3 rows, 2 workers: the first result is for rows 1..3, the second for row 0
    let missing: Vec<Option<Vec<u8>>> = vec![None, Some(vec![0, 1])];
    assert_eq!(mend(2, 3, &missing, 99), vec![Some(vec![99, 99, 99, 99]), Some(vec![0, 1])]);
    let short: Vec<Option<Vec<u8>>> = vec![Some(vec![20, 21, 10, 11]), Some(vec![0])];
    assert_eq!(mend(2, 3, &short, 99), vec![Some(vec![20, 21, 10, 11]), Some(vec![99, 99])]);
    let long: Vec<Option<Vec<u8>>> = vec![Some(vec![1; 5]), None];
    assert_eq!(mend(2, 3, &long, 7), vec![Some(vec![7; 4]), Some(vec![7; 2])]);
}

#[test]
fn mended_results_can_be_assembled() {
    let chunks: Vec<Option<Vec<u8>>> = vec![None, Some(vec![0, 1]), None];
    assert!(assemble(2, 5, &chunks).is_err());
    // 3 workers over 5 rows: bands 0..1, 1..2, 2..5
    let image = assemble(2, 5, &mend(2, 5, &chunks, 9)).unwrap();
    for x in 0..2u32 {
        assert_eq!(image.at(x, 0), 9);
        assert_eq!(image.at(x, 1), x as u8);
        for y in 2..5u32 {
            assert_eq!(image.at(x, y), 9);
        }
    }
}

#[test]
fn mend_of_no_results() {
    let none: Vec<Option<Vec<u8>>> = Vec::new();
    assert_eq!(mend(4, 4, &none, 1), none);
}

#[test]
fn band_seeds_follow_the_seed_of_the_render() {
    assert_eq!(band_seed(0, 0), 1);
    assert_eq!(band_seed(0, 7), 8);
    assert_eq!(band_seed(1000, 63), 1064);
}

#[test]
fn band_seeds_go_round_at_the_largest_seed() {
    assert_eq!(band_seed(u64::MAX, 0), 0);
    assert_eq!(band_seed(u64::MAX, 2), 2);
    assert_eq!(band_seed(u64::MAX - 1, 0), u64::MAX);
}

#[test]
fn band_seeds_differ_from_band_to_band() {
    let seeds: Vec<u64> = (0..64).map(|band| band_seed(u64::MAX - 10, band)).collect();
    for i in 0..64 {
        for j in 0..i {
            assert_ne!(seeds[i], seeds[j]);
        }
    }
}
