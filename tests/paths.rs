use cache_server::data_cache::CacheRequest;
use cache_server::paths::{
    entry_files, format_zero_padded, group_catalog_path, parse_decimal, snapshot_dir_path,
    snapshot_id_of_dir,
};

#[test]
fn zero_padding() {
    assert_eq!("005", format_zero_padded(5, 3));
    assert_eq!("099", format_zero_padded(99, 3));
    assert_eq!("1234", format_zero_padded(1234, 3));
    assert_eq!("000", format_zero_padded(0, 3));
    assert_eq!("0", format_zero_padded(0, 0));
    assert_eq!(usize::MAX.to_string(), format_zero_padded(usize::MAX, 3));
}

#[test]
fn snapshot_directory() {
    assert_eq!(
        "/data/TNG50-4/snapdir_099/",
        snapshot_dir_path(&"/data".to_string(), &"TNG50-4".to_string(), 99)
    );
}

#[test]
fn entry_file_names() {
    let request = CacheRequest { simulation: "TNG50-4".to_string(), snapshot_id: 7 };
    let files = entry_files(&"/data".to_string(), &request);
    let dir = "/data/TNG50-4/snapdir_007/";
    assert_eq!(format!("{dir}particle_list_of_leafs_Density.npy"), files.particle_list_of_leafs);
    assert_eq!(format!("{dir}particle_list_of_leafs_Density_scan.npy"), files.particle_list_of_leafs_scan);
    assert_eq!(format!("{dir}splines.npy"), files.splines);
    assert_eq!(format!("{dir}Density.npy"), files.densities);
    assert_eq!(format!("{dir}densities_quantiles.npy"), files.quantiles);
    assert_eq!(format!("{dir}Coordinates.npy"), files.coordinates);
    assert_eq!(format!("{dir}voronoi_diameter_extended.npy"), files.voronoi_diameter_extended);
    assert_eq!(format!("{dir}o3dOctree.json"), files.octree);
}

#[test]
fn group_catalogue() {
    assert_eq!(
        "/data/TNG50-4/groups_099/fof_subhalo_tab_099.0.hdf5",
        group_catalog_path(&"/data".to_string(), &"TNG50-4".to_string(), 99)
    );
}

#[test]
fn snapshot_ids_from_directory_names() {
    assert_eq!(Some(99), snapshot_id_of_dir("snapdir_099"));
    assert_eq!(Some(1234), snapshot_id_of_dir("snapdir_1234"));
    assert_eq!(None, snapshot_id_of_dir("snapdir_"));
    assert_eq!(None, snapshot_id_of_dir("snapdir_09a"));
    assert_eq!(None, snapshot_id_of_dir("groups_099"));
    assert_eq!(None, snapshot_id_of_dir("snapdir_99999999999999999999999"));
}

#[test]
fn decimal_parsing() {
    assert_eq!(Some(0), parse_decimal("0"));
    assert_eq!(Some(42), parse_decimal("042"));
    assert_eq!(Some(usize::MAX), parse_decimal(&usize::MAX.to_string()));
    assert_eq!(None, parse_decimal(""));
    assert_eq!(None, parse_decimal("+1"));
    assert_eq!(None, parse_decimal("18446744073709551616"));
}
