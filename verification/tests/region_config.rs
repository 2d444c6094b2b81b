use bangladesh::config::{
    check_cells_per_side, get_config, output_dir, pbf_path, region_config_for, CellsPerSideError,
    ConfigError, DEFAULT_CELLS_PER_SIDE,
};

#[test]
fn known_regions_have_download_urls() {
    let c = get_config("bangladesh").ok().unwrap();
    assert_eq!(c.url, "https://download.geofabrik.de/asia/bangladesh-latest.osm.pbf");
    assert_eq!(c.filename, "bangladesh.pbf");
    let d = get_config("dhaka").ok().unwrap();
    assert_eq!(d.url, "https://download.bbbike.org/osm/bbbike/Dhaka/Dhaka.osm.pbf");
    assert_eq!(d.filename, "dhaka.pbf");
}

#[test]
fn region_names_are_matched_without_case() {
    let d = get_config("DhAkA").ok().unwrap();
    assert_eq!(d.filename, "dhaka.pbf");
    assert_eq!(get_config("BANGLADESH").ok().unwrap().filename, "bangladesh.pbf");
}

#[test]
fn unknown_region_is_refused_with_its_name() {
    match get_config("Chittagong") {
        Err(ConfigError::UnknownRegion(name)) => assert_eq!(name, "Chittagong"),
        Ok(_) => panic!("unexpected configuration"),
    }
    let e = get_config("Mars").err().unwrap();
    assert_eq!(e.message(), "Unknown region: Mars. Add it to get_config()");
}

#[test]
fn lowered_name_decides_and_written_name_is_reported() {
    assert!(region_config_for("dhaka", "DHAKA").is_ok());
    match region_config_for("DHAKA", "DHAKA") {
        Err(ConfigError::UnknownRegion(name)) => assert_eq!(name, "DHAKA"),
        Ok(_) => panic!("only the lowercase name is known"),
    }
}

#[test]
fn generator_paths_of_a_region() {
    assert_eq!(pbf_path("dhaka"), "assets/map/dhaka/dhaka.pbf");
    assert_eq!(output_dir("dhaka"), "assets/map/dhaka");
}

#[test]
fn chunk_resolution_rules() {
    assert_eq!(check_cells_per_side(DEFAULT_CELLS_PER_SIDE), Ok(()));
    assert_eq!(check_cells_per_side(2), Ok(()));
    assert_eq!(check_cells_per_side(0), Err(CellsPerSideError::TooSmall));
    assert_eq!(check_cells_per_side(1), Err(CellsPerSideError::TooSmall));
    assert_eq!(check_cells_per_side(3), Err(CellsPerSideError::Odd));
    assert_eq!(check_cells_per_side(65534), Ok(()));
    assert_eq!(check_cells_per_side(65536), Err(CellsPerSideError::TooLarge));
    assert_eq!(check_cells_per_side(65537), Err(CellsPerSideError::Odd));
    assert_eq!(CellsPerSideError::Odd.message(), "cells_per_side must be even for 2x downsampling");
}
