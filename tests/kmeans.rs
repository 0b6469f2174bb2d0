use kmeans_quant::{euclidi, run, Color, Dist, KMeans, KMeansError};
use rand::SeedableRng;

fn set_of(vals: &[Color]) -> KMeans {
    KMeans::from_centroids(vals.to_vec()).unwrap()
}

fn sample_grid() -> Vec<Color> {
    vec![
        [0, 0, 0],
        [10, 20, 30],
        [250, 240, 230],
        [255, 255, 255],
        [128, 0, 64],
        [130, 2, 60],
        [0, 255, 0],
        [5, 250, 3],
    ]
}

#[test]
fn distance_is_squared_euclidean() {
    assert_eq!(euclidi(&[0, 0, 0], &[3, 4, 0]), 25);
    assert_eq!(euclidi(&[255, 255, 255], &[0, 0, 0]), 3 * 255 * 255);
    assert_eq!([7u8, 8, 9].dist([7, 8, 9]), 0);
    assert_eq!([1u8, 2, 3].dist([4, 6, 3]), [4u8, 6, 3].dist([1, 2, 3]));
}

#[test]
fn zero_clusters_rejected() {
    assert_eq!(KMeans::new(0).err(), Some(KMeansError::NoClusters));
    assert_eq!(KMeans::from_centroids(Vec::new()).err(), Some(KMeansError::NoClusters));
    assert_eq!(run(0, 5, &sample_grid()).err(), Some(KMeansError::NoClusters));
}

#[test]
fn run_returns_k_centroids() {
    let grid = sample_grid();
    for k in 1..6usize {
        for iters in 0..4usize {
            let m = run(k, iters, &grid).unwrap();
            assert_eq!(m.centroids().len(), k);
        }
    }
    assert_eq!(KMeans::new(7).unwrap().centroids().len(), 7);
    assert_eq!(run(3, 2, &[]).unwrap().centroids().len(), 3);
}

#[test]
fn zero_iterations_keep_initial_set() {
    let init: Vec<Color> = vec![[1, 2, 3], [200, 100, 50], [9, 9, 9]];
    let mut m = set_of(&init);
    m.iterate(0, &sample_grid());
    assert_eq!(m.centroids(), &init);
}

#[test]
fn classify_picks_nearest_lowest_index_on_ties() {
    let m = set_of(&[[100, 100, 100], [0, 0, 0], [0, 0, 0], [255, 255, 255]]);
    assert_eq!(m.class_idx(&[1, 1, 1]), 1);
    assert_eq!(m.class_idx(&[250, 250, 250]), 3);
    assert_eq!(m.class_idx(&[90, 100, 110]), 0);
    let tie = set_of(&[[10, 0, 0], [0, 0, 0], [20, 0, 0]]);
    assert_eq!(tie.class_idx(&[10, 0, 0]), 0);
    assert_eq!(tie.class_idx(&[5, 0, 0]), 0);
    assert_eq!(tie.class_idx(&[15, 0, 0]), 0);
    assert_eq!(*tie.class_val(&[16, 0, 0]), [20, 0, 0]);
}

#[test]
fn mean_truncates_and_empty_cluster_keeps_old_value() {
    let m = set_of(&[[0, 0, 0], [200, 200, 200]]);
    let grid: Vec<Color> = vec![[1, 0, 5], [2, 1, 6], [2, 1, 6]];
    assert_eq!(m.mean_of_cluster(0, &grid), Some([1, 0, 5]));
    assert_eq!(m.mean_of_cluster(1, &grid), None);
    let mut m2 = set_of(&[[0, 0, 0], [200, 200, 200]]);
    m2.update(&grid);
    assert_eq!(m2.centroids(), &vec![[1, 0, 5], [200, 200, 200]]);
}

#[test]
fn quantized_colors_come_from_centroids() {
    let grid = sample_grid();
    let m = run(3, 4, &grid).unwrap();
    let mut out = grid.clone();
    m.quantize(&mut out);
    assert_eq!(out.len(), grid.len());
    let mut distinct: Vec<Color> = Vec::new();
    for (i, c) in out.iter().enumerate() {
        assert!(m.centroids().contains(c));
        assert_eq!(c, m.class_val(&grid[i]));
        if !distinct.contains(c) {
            distinct.push(*c);
        }
    }
    assert!(distinct.len() <= 3);
}

#[test]
fn quantize_is_idempotent() {
    let grid = sample_grid();
    let m = set_of(&[[0, 0, 0], [0, 0, 0], [128, 128, 128], [255, 255, 255]]);
    let mut once = grid.clone();
    m.quantize(&mut once);
    let mut twice = once.clone();
    m.quantize(&mut twice);
    assert_eq!(once, twice);
}

#[test]
fn uniform_grid_converges_to_its_color() {
    let q: Color = [37, 142, 201];
    let grid: Vec<Color> = vec![q; 6];
    for iters in 1..4usize {
        let mut m = set_of(&[[0, 0, 0], [255, 255, 255], [40, 140, 200]]);
        m.iterate(iters, &grid);
        assert_eq!(*m.class_val(&q), q);
        let mut out = grid.clone();
        m.quantize(&mut out);
        assert_eq!(out, grid);
    }
}

#[test]
fn update_matches_sequential_aggregation() {
    let grid = sample_grid();
    let init: Vec<Color> = vec![[0, 0, 0], [255, 255, 255], [128, 0, 64], [0, 200, 0], [90, 90, 90]];
    let m = set_of(&init);
    let mut expected: Vec<Color> = Vec::new();
    for c in 0..init.len() {
        expected.push(m.mean_of_cluster(c, &grid).unwrap_or(init[c]));
    }
    let mut par = set_of(&init);
    par.update(&grid);
    assert_eq!(par.centroids(), &expected);
    let mut reversed = grid.clone();
    reversed.reverse();
    let mut par2 = set_of(&init);
    par2.update(&reversed);
    assert_eq!(par2.centroids(), &expected);
}

#[test]
fn two_pixel_scenario() {
    let grid: Vec<Color> = vec![[0, 0, 0], [255, 255, 255]];
    let mut m = set_of(&[[10, 10, 10], [240, 240, 240]]);
    assert_eq!(m.class_idx(&grid[0]), 0);
    assert_eq!(m.class_idx(&grid[1]), 1);
    m.iterate(1, &grid);
    assert_eq!(m.centroids(), &vec![[0, 0, 0], [255, 255, 255]]);
    let mut out = grid.clone();
    m.quantize(&mut out);
    assert_eq!(out, grid);
}

#[test]
fn seeded_initialization_is_reproducible() {
    let a = KMeans::with_seed(5, 42).unwrap();
    let b = KMeans::with_seed(5, 42).unwrap();
    assert_eq!(a.centroids(), b.centroids());
    assert_eq!(a.centroids().len(), 5);
    assert_eq!(KMeans::with_seed(0, 42).err(), Some(KMeansError::NoClusters));

    let mut rng = rand::rngs::StdRng::seed_from_u64(7);
    let mut m = KMeans::with_rng(4, &mut rng).unwrap();
    let mut rng2 = rand::rngs::StdRng::seed_from_u64(7);
    let init = KMeans::with_rng(4, &mut rng2).unwrap();
    m.iterate(0, &sample_grid());
    assert_eq!(m.centroids(), init.centroids());
}
