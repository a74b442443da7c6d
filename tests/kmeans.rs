use rand::rngs::StdRng;
use rand::SeedableRng;
use roloc::kmeans::{initial_center_indices, reseed_indices};

#[test]
fn initial_centers_are_distinct_pixels() {
    let mut rng = StdRng::seed_from_u64(7);
    for _ in 0..50 {
        let r = initial_center_indices(&mut rng, 10, 4);
        assert_eq!(r.len(), 4);
        for i in 0..r.len() {
            assert!(r[i] < 10);
            for j in 0..i {
                assert_ne!(r[i], r[j]);
            }
        }
    }
}

#[test]
fn initial_centers_cover_all_pixels_when_k_equals_count() {
    let mut rng = StdRng::seed_from_u64(7);
    let mut r = initial_center_indices(&mut rng, 6, 6);
    r.sort();
    assert_eq!(r, vec![0, 1, 2, 3, 4, 5]);
}

#[test]
fn initial_centers_repeat_when_k_exceeds_count() {
    let mut rng = StdRng::seed_from_u64(7);
    let r = initial_center_indices(&mut rng, 3, 8);
    assert_eq!(r.len(), 8);
    assert!(r.iter().all(|&i| i < 3));
    let mut first = r[..3].to_vec();
    first.sort();
    assert_eq!(first, vec![0, 1, 2]);
}

#[test]
fn single_pixel_gives_its_index() {
    let mut rng = StdRng::seed_from_u64(7);
    assert_eq!(initial_center_indices(&mut rng, 1, 1), vec![0]);
    assert_eq!(reseed_indices(&mut rng, &[0, 1], 1), vec![Some(0), None]);
}

#[test]
fn reseed_only_empty_clusters() {
    let mut rng = StdRng::seed_from_u64(7);
    let r = reseed_indices(&mut rng, &[3, 0, 5, 0], 7);
    assert_eq!(r.len(), 4);
    assert_eq!(r[0], None);
    assert!(matches!(r[1], Some(i) if i < 7));
    assert_eq!(r[2], None);
    assert!(matches!(r[3], Some(i) if i < 7));
}

#[test]
fn same_seed_gives_same_choices() {
    let mut first = StdRng::seed_from_u64(42);
    let mut second = StdRng::seed_from_u64(42);
    assert_eq!(
        initial_center_indices(&mut first, 1000, 5),
        initial_center_indices(&mut second, 1000, 5)
    );
    assert_eq!(
        reseed_indices(&mut first, &[0, 2, 0], 1000),
        reseed_indices(&mut second, &[0, 2, 0], 1000)
    );
}
