use std::collections::HashMap;

use cache_server::entry::{CacheEntry, LoadError};
use cache_server::lod::{
    advance_progress, calc_lod, gather_rows, particles_valid, progress_fits, select_particles,
    tracked_leaves, LodError,
};

fn reference_order() -> Vec<i64> {
    (1..=21).collect()
}

fn reference_offsets() -> Vec<i64> {
    vec![0, 4, 7, 11, 17]
}

/// Tables for `n` particles whose values only depend on the column.
fn reference_entry(n: usize) -> CacheEntry<f64, ()> {
    let mut splines = Vec::new();
    for _particle in 0..n {
        for group in 0..4 {
            for _component in 0..3 {
                splines.push((group + 1) as f64);
            }
        }
    }
    let mut densities = Vec::new();
    for _row in 0..2 {
        for particle in 0..n {
            densities.push((particle + 1) as f64);
        }
    }
    let mut coordinates = Vec::new();
    for _particle in 0..n {
        for dim in 0..3 {
            coordinates.push((dim + 1) as f64);
        }
    }
    let extra: Vec<f64> = (0..n).map(|p| p as f64 * 0.5).collect();
    CacheEntry::new(
        reference_order(),
        reference_offsets(),
        splines,
        densities,
        coordinates,
        extra,
        vec![0.1, 0.5, 0.9],
        (),
    )
    .unwrap()
}

fn reference_progress() -> HashMap<i64, i64> {
    let mut progress = HashMap::new();
    progress.insert(0, 1);
    progress.insert(1, 1);
    progress.insert(3, 1);
    progress
}

fn check_reference_result(progress: &HashMap<i64, i64>, n_particles: usize) {
    let mut keys: Vec<i64> = progress.keys().copied().collect();
    keys.sort();
    assert_eq!(vec![0, 1, 2, 3, 4], keys);
    assert_eq!(1, *progress.get(&0).unwrap());
    assert_eq!(2, *progress.get(&1).unwrap());
    assert_eq!(1, *progress.get(&2).unwrap());
    assert_eq!(2, *progress.get(&3).unwrap());
    assert_eq!(1, *progress.get(&4).unwrap());
    assert_eq!(7, n_particles);
}

#[test]
fn mod_test_calc_lod_stuff() {
    let entry = reference_entry(21);
    let mut client_level_of_detail = reference_progress();
    let visible = vec![1, 2, 3, 4];
    let res = calc_lod(&entry, &visible, 2, &mut client_level_of_detail, 0).unwrap();
    check_reference_result(&res.client_level_of_detail, res.n_particles);
}

#[test]
fn lod_test_calc_lod_stuff() {
    let entry = reference_entry(21);
    let mut client_level_of_detail = reference_progress();
    let visible = vec![1, 2, 3, 4];
    let res = calc_lod(&entry, &visible, 2, &mut client_level_of_detail, 7).unwrap();
    check_reference_result(&res.client_level_of_detail, res.n_particles);
    check_reference_result(&client_level_of_detail, res.n_particles);
    assert_eq!(7, res.snapshot_id);
}

#[test]
fn reference_scenario_emits_expected_particles() {
    let entry = reference_entry(22);
    let progress = reference_progress();
    let ids = select_particles(&entry, &vec![1, 2, 3, 4], 2, &progress).unwrap();
    // leaf 1 at level 1: position 6; leaf 2 at level 0: positions 7, 8;
    // leaf 3 at level 1: positions 13, 14; leaf 4 at level 0: positions 17, 18.
    assert_eq!(vec![7, 8, 9, 14, 15, 18, 19], ids);
}

#[test]
fn gathered_values_follow_emission_order() {
    let entry = reference_entry(22);
    let mut progress = HashMap::new();
    let res = calc_lod(&entry, &vec![0], 3, &mut progress, 1).unwrap();
    // leaf 0, level 0: particles 1, 2, 3
    assert_eq!(3, res.n_particles);
    assert_eq!(vec![1.0; 9], res.splines_a);
    assert_eq!(vec![2.0; 9], res.splines_b);
    assert_eq!(vec![3.0; 9], res.splines_c);
    assert_eq!(vec![4.0; 9], res.splines_d);
    assert_eq!(vec![2.0, 3.0, 4.0, 2.0, 3.0, 4.0], res.relevant_densities_flat);
    assert_eq!(vec![1.0, 2.0, 3.0, 1.0, 2.0, 3.0, 1.0, 2.0, 3.0], res.relevant_coordinates);
    assert_eq!(vec![0.5, 1.0, 1.5], res.relevant_voronoi_diameter_extended);
    assert_eq!(vec![0], res.node_indices);
    assert_eq!(Some(&1), progress.get(&0));
}

#[test]
fn every_leaf_emits_at_most_batch_size() {
    let entry = reference_entry(22);
    let progress = HashMap::new();
    for leaf in 0..5i64 {
        for batch in 0..8i64 {
            let ids = select_particles(&entry, &vec![leaf], batch, &progress).unwrap();
            assert!(ids.len() as i64 <= batch);
        }
    }
}

#[test]
fn exhausted_leaf_keeps_counting() {
    let entry = reference_entry(22);
    let mut progress = HashMap::new();
    // leaf 1 holds positions 4..7: three particles, batches of two
    let mut emitted = Vec::new();
    for _call in 0..5 {
        let res = calc_lod(&entry, &vec![1], 2, &mut progress, 0).unwrap();
        emitted.push(res.n_particles);
    }
    assert_eq!(vec![2, 1, 0, 0, 0], emitted);
    assert_eq!(Some(&5), progress.get(&1));
}

#[test]
fn leaf_id_out_of_range_is_refused() {
    let entry = reference_entry(22);
    let mut progress = reference_progress();
    let before = progress.clone();
    let res = calc_lod(&entry, &vec![1, 5], 2, &mut progress, 0);
    assert!(matches!(res, Err(LodError::IndexOutOfRange)));
    assert_eq!(before, progress);
    let res = calc_lod(&entry, &vec![-1], 2, &mut progress, 0);
    assert!(matches!(res, Err(LodError::IndexOutOfRange)));
    assert_eq!(before, progress);
}

#[test]
fn particle_id_outside_tables_is_refused() {
    // 21 particles in the tables, but leaf 4's run names particle 21
    let entry = reference_entry(21);
    let mut progress = HashMap::new();
    progress.insert(4, 1);
    let before = progress.clone();
    let res = calc_lod(&entry, &vec![4], 3, &mut progress, 0);
    assert!(matches!(res, Err(LodError::IndexOutOfRange)));
    assert_eq!(before, progress);
}

#[test]
fn empty_view_gives_empty_batch() {
    let entry = reference_entry(22);
    let mut progress = reference_progress();
    let res = calc_lod(&entry, &vec![], 2, &mut progress, 3).unwrap();
    assert_eq!(0, res.n_particles);
    assert!(res.relevant_densities_flat.is_empty());
    assert_eq!(reference_progress(), res.client_level_of_detail);
    let mut leaves = res.node_indices.clone();
    leaves.sort();
    assert_eq!(vec![0, 1, 3], leaves);
}

#[test]
fn zero_batch_size_emits_nothing_but_advances() {
    let entry = reference_entry(22);
    let mut progress = HashMap::new();
    let res = calc_lod(&entry, &vec![2, 3], 0, &mut progress, 0).unwrap();
    assert_eq!(0, res.n_particles);
    assert_eq!(Some(&1), progress.get(&2));
    assert_eq!(Some(&1), progress.get(&3));
}

#[test]
fn advance_counts_each_visit() {
    let mut progress = HashMap::new();
    progress.insert(9, 4);
    advance_progress(&mut progress, &vec![1, 9, 1]);
    assert_eq!(Some(&2), progress.get(&1));
    assert_eq!(Some(&5), progress.get(&9));
    assert_eq!(2, progress.len());
}

#[test]
fn gather_rows_picks_columns() {
    let table: Vec<u32> = (0..12).collect();
    assert_eq!(vec![9, 10, 3, 4], gather_rows(&table, &vec![3, 1], 3, 0, 2));
    assert_eq!(vec![5, 2], gather_rows(&table, &vec![1, 0], 3, 2, 1));
}

#[test]
fn particles_valid_checks_bounds() {
    assert!(particles_valid(&vec![0, 4], 5));
    assert!(!particles_valid(&vec![0, 5], 5));
    assert!(!particles_valid(&vec![-1], 5));
}

#[test]
fn tracked_leaves_lists_each_key_once() {
    let mut leaves = tracked_leaves(&reference_progress());
    leaves.sort();
    assert_eq!(vec![0, 1, 3], leaves);
}

#[test]
fn entry_rejects_unordered_offsets() {
    let res = CacheEntry::new(vec![1, 2, 3], vec![0, 2, 1], vec![], vec![], vec![], Vec::<f64>::new(), vec![], ());
    assert!(matches!(res, Err(LoadError::UnorderedLeafOffsets)));
}

#[test]
fn entry_rejects_offsets_outside_order() {
    let res = CacheEntry::new(vec![1, 2, 3], vec![0, 4], vec![], vec![], vec![], Vec::<f64>::new(), vec![], ());
    assert!(matches!(res, Err(LoadError::LeafOffsetOutOfRange)));
    let res = CacheEntry::new(vec![1, 2, 3], vec![-1, 2], vec![], vec![], vec![], Vec::<f64>::new(), vec![], ());
    assert!(matches!(res, Err(LoadError::LeafOffsetOutOfRange)));
}

#[test]
fn entry_rejects_inconsistent_tables() {
    let res = CacheEntry::new(vec![0], vec![0], vec![0.0; 12], vec![0.0; 2], vec![0.0; 2], vec![0.0], vec![], ());
    assert!(matches!(res, Err(LoadError::TableShapeMismatch)));
}

#[test]
fn entry_exposes_quantiles_and_index() {
    let entry = reference_entry(21);
    assert_eq!(&vec![0.1, 0.5, 0.9], entry.quantiles());
    assert_eq!(3, entry.quantiles().len());
    assert_eq!(&(), entry.spatial_index());
    assert_eq!(5, entry.leaf_count());
    assert_eq!((17, 21), entry.leaf_run(4));
    assert_eq!(vec![5, 6, 7], entry.particles_in(4, 7));
}

#[test]
fn progress_round_trips_through_json() {
    let progress = reference_progress();
    let text = serde_json::to_string(&progress).unwrap();
    let back: HashMap<i64, i64> = serde_json::from_str(&text).unwrap();
    assert_eq!(progress, back);
}

#[test]
fn progress_fits_checks_levels() {
    assert!(progress_fits(&reference_progress(), 4));
    let mut progress = reference_progress();
    progress.insert(7, -1);
    assert!(!progress_fits(&progress, 0));
    let mut progress = HashMap::new();
    progress.insert(2, i64::MAX - 3);
    assert!(progress_fits(&progress, 3));
    assert!(!progress_fits(&progress, 4));
}
