use bangladesh::components::{component_touches_boundary, find_components};
use bangladesh::refine::{
    bridge_cardinal_gaps, collect_water_components, fill_river_gaps, has_river_like_water,
    index, refine_chunk_cells, remove_road_islands, trim_short_dangling_roads, WaterComponentStats,
};

/// A square raster from rows of digits.
fn grid(rows: &[&str]) -> Vec<u8> {
    rows.iter().flat_map(|r| r.bytes().map(|b| b - b'0')).collect()
}

#[test]
fn cardinal_gaps_between_two_cells_are_bridged() {
    let mut cells = grid(&["22222", "22222", "27272", "22222", "22222"]);
    bridge_cardinal_gaps(&mut cells, 5, 7, 3);
    assert_eq!(cells, grid(&["22222", "22222", "27772", "22222", "22222"]));
}

#[test]
fn inner_road_islands_become_grass() {
    let mut cells = grid(&["444444", "444444", "447744", "444444", "774444", "444444"]);
    remove_road_islands(&mut cells, 6, 6);
    assert_eq!(cells, grid(&["444444", "444444", "442244", "444444", "774444", "444444"]));
}

#[test]
fn larger_islands_stay() {
    let mut cells = grid(&["444444", "444444", "447744", "444444", "774444", "444444"]);
    remove_road_islands(&mut cells, 6, 1);
    assert_eq!(cells, grid(&["444444", "444444", "447744", "444444", "774444", "444444"]));
}

#[test]
fn dangling_stub_is_trimmed_up_to_its_junction() {
    let mut cells = grid(&["4444444", "4447444", "4447444", "7777777", "4444444", "4444444", "4444444"]);
    trim_short_dangling_roads(&mut cells, 7, 4);
    assert_eq!(cells, grid(&["4444444", "4442444", "4442444", "7772777", "4444444", "4444444", "4444444"]));
}

#[test]
fn stub_reaching_the_boundary_stays() {
    let mut cells = grid(&["4447444", "4447444", "4447444", "4444444", "4444444", "4444444", "4444444"]);
    let before = cells.clone();
    trim_short_dangling_roads(&mut cells, 7, 4);
    assert_eq!(cells, before);
}

#[test]
fn river_gaps_are_filled() {
    let mut cells = grid(&["22222", "22122", "22222", "22122", "22222"]);
    fill_river_gaps(&mut cells, 5, 1);
    assert_eq!(cells, grid(&["22222", "22122", "22122", "22122", "22222"]));
}

#[test]
fn roads_block_river_filling() {
    let mut cells = grid(&["22222", "22122", "22722", "22122", "22222"]);
    let before = cells.clone();
    fill_river_gaps(&mut cells, 5, 2);
    assert_eq!(cells, before);
}

#[test]
fn water_components_in_scan_order() {
    let cells = grid(&["222222", "211222", "222222", "222222", "222212", "222222"]);
    let stats = collect_water_components(&cells, 6);
    assert_eq!(stats.len(), 2);
    assert_eq!(stats[0], WaterComponentStats { size: 2, min_x: 1, min_y: 1, max_x: 2, max_y: 1, touches_boundary: false });
    assert_eq!(stats[1], WaterComponentStats { size: 1, min_x: 4, min_y: 4, max_x: 4, max_y: 4, touches_boundary: false });
}

#[test]
fn long_water_looks_like_a_river() {
    let mut rows = vec!["222222222222"; 12];
    rows[5] = "111111111111";
    rows[6] = "111111111111";
    let cells = grid(&rows);
    assert!(has_river_like_water(&cells, 12));
}

#[test]
fn small_pond_is_no_river() {
    let cells = grid(&["222222", "211122", "211122", "211122", "222222", "222222"]);
    assert!(!has_river_like_water(&cells, 6));
}

#[test]
fn refinement_bridges_a_road_gap() {
    let mut cells = grid(&["22222", "22222", "77277", "22222", "22222"]);
    refine_chunk_cells(&mut cells, 5);
    assert_eq!(cells, grid(&["22222", "22222", "77777", "22222", "22222"]));
}

#[test]
fn refinement_leaves_rasters_it_cannot_read() {
    let mut tiny = vec![7u8, 2, 2, 7];
    refine_chunk_cells(&mut tiny, 2);
    assert_eq!(tiny, vec![7, 2, 2, 7]);
    let mut short = vec![7u8; 8];
    refine_chunk_cells(&mut short, 3);
    assert_eq!(short, vec![7u8; 8]);
}

#[test]
fn lone_road_island_is_removed_before_water_wins() {
    let mut cells = grid(&["22222", "22122", "21712", "22122", "22222"]);
    refine_chunk_cells(&mut cells, 5);
    assert_eq!(cells, grid(&["22222", "22122", "21212", "22122", "22222"]));
}

#[test]
fn road_surrounded_by_water_becomes_water() {
    let mut cells = grid(&["22222", "22122", "77712", "22122", "22222"]);
    refine_chunk_cells(&mut cells, 5);
    assert_eq!(cells, grid(&["22222", "22122", "77112", "22122", "22222"]));
}

#[test]
fn components_are_found_in_scan_order() {
    let cells = grid(&["7700", "0000", "0077", "0007"]);
    let comps = find_components(&cells, 4, 7);
    assert_eq!(comps.len(), 2);
    assert_eq!(comps[0], vec![0, 1]);
    let mut second = comps[1].clone();
    second.sort();
    assert_eq!(second, vec![10, 11, 15]);
    assert!(component_touches_boundary(&comps[0], 4));
    assert!(!component_touches_boundary(&vec![5, 6], 4));
}

#[test]
fn chunk_cells_are_row_major() {
    assert_eq!(index(0, 0, 7), 0);
    assert_eq!(index(6, 0, 7), 6);
    assert_eq!(index(2, 3, 7), 23);
}

#[test]
fn components_partition_the_cells_of_a_code() {
    let cells = grid(&["7707", "0707", "0077", "7000"]);
    let comps = find_components(&cells, 4, 7);
    let mut seen = vec![0_u32; 16];
    for comp in &comps {
        assert!(!comp.is_empty());
        for (i, &k) in comp.iter().enumerate() {
            assert_eq!(cells[k], 7);
            seen[k] += 1;
            if i > 0 {
                let touches = comp[..i].iter().any(|&j| {
                    let (ax, ay, bx, by) = (j % 4, j / 4, k % 4, k / 4);
                    (ax == bx && ay.abs_diff(by) == 1) || (ay == by && ax.abs_diff(bx) == 1)
                });
                assert!(touches);
            }
        }
    }
    for k in 0..16 {
        assert_eq!(seen[k], if cells[k] == 7 { 1 } else { 0 });
    }
    assert_eq!(comps.len(), 3);
}

#[test]
fn refinement_road_removal_only_touches_interior_roads() {
    let before = grid(&["22222", "27772", "22222", "22272", "22222"]);
    let mut stubs = before.clone();
    trim_short_dangling_roads(&mut stubs, 5, 4);
    let mut islands = before.clone();
    remove_road_islands(&mut islands, 5, 2);
    for after in [&stubs, &islands] {
        for k in 0..25 {
            if after[k] != before[k] {
                let (x, y) = (k % 5, k / 5);
                assert_eq!(before[k], 7);
                assert!(x > 0 && y > 0 && x < 4 && y < 4);
            }
            if after[k] == 7 {
                assert_eq!(before[k], 7);
            }
        }
    }
    assert_eq!(islands[18], 2);
}
