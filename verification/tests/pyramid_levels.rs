use bangladesh::cells::{
    cell_index, in_bounds, is_boundary_cell, is_edge_connected_pair, lod_tie_break_priority,
    resolve_downsampled_cell,
};
use bangladesh::pyramid::{
    apply_low_lod_road_cleanup, bridge_road_gaps, ceil_log2, compute_pyramid_layout,
    downsample_parent_tile, erode_dense_road_clusters, layout_in_range, remove_small_road_components,
    remove_weak_road_cells, LayoutError, PyramidLayout, CHUNK_SIZE_METERS,
};
use bangladesh::reducer::{ParentLevelReducer, PyramidError, PyramidStreamReducer};

#[test]
fn cell_grid_helpers() {
    assert_eq!(cell_index(3, 2, 5), 13);
    assert!(in_bounds(0, 4, 5));
    assert!(!in_bounds(-1, 0, 5));
    assert!(!in_bounds(0, 5, 5));
    assert!(is_boundary_cell(0, 2, 5));
    assert!(is_boundary_cell(4, 4, 5));
    assert!(!is_boundary_cell(2, 2, 5));
}

#[test]
fn tie_break_ranks() {
    let expected = [0u8, 1, 2, 4, 6, 3, 5, 1];
    for code in 0..8u8 {
        assert_eq!(lod_tie_break_priority(code), expected[code as usize]);
    }
    assert_eq!(lod_tie_break_priority(200), 0);
}

#[test]
fn edge_connected_pairs_share_a_side() {
    assert!(is_edge_connected_pair(0b0011));
    assert!(is_edge_connected_pair(0b1100));
    assert!(is_edge_connected_pair(0b0101));
    assert!(is_edge_connected_pair(0b1010));
    assert!(!is_edge_connected_pair(0b1001));
    assert!(!is_edge_connected_pair(0b0110));
    assert!(!is_edge_connected_pair(0b0111));
    assert!(!is_edge_connected_pair(0));
}

#[test]
fn downsample_majority_and_ties() {
    assert_eq!(resolve_downsampled_cell([3, 3, 3, 2]), 3);
    assert_eq!(resolve_downsampled_cell([4, 4, 4, 4]), 4);
    // Two-two tie between farmland and urban: the higher tie rank wins.
    assert_eq!(resolve_downsampled_cell([5, 4, 5, 4]), 4);
    // Four different classes: each counts once, urban ranks highest.
    assert_eq!(resolve_downsampled_cell([2, 3, 4, 5]), 4);
}

#[test]
fn ceil_log2_values() {
    assert_eq!(ceil_log2(0), 0);
    assert_eq!(ceil_log2(1), 0);
    assert_eq!(ceil_log2(2), 1);
    assert_eq!(ceil_log2(3), 2);
    assert_eq!(ceil_log2(4), 2);
    assert_eq!(ceil_log2(5), 3);
    assert_eq!(ceil_log2(1024), 10);
    assert_eq!(ceil_log2(1025), 11);
    assert_eq!(ceil_log2(u32::MAX), 32);
}

#[test]
fn layout_centres_the_chunks() {
    assert_eq!(
        compute_pyramid_layout(0, 0, 0, 0),
        Ok(PyramidLayout { playable_zoom_level: 0, playable_tile_offset_x: 0, playable_tile_offset_y: 0, playable_tile_size_m: CHUNK_SIZE_METERS })
    );
    assert_eq!(
        compute_pyramid_layout(-3, 2, 4, 5),
        Ok(PyramidLayout { playable_zoom_level: 3, playable_tile_offset_x: 3, playable_tile_offset_y: 0, playable_tile_size_m: 1024 })
    );
    assert_eq!(
        compute_pyramid_layout(10, 10, 14, 10),
        Ok(PyramidLayout { playable_zoom_level: 3, playable_tile_offset_x: -9, playable_tile_offset_y: -7, playable_tile_size_m: 1024 })
    );
}

#[test]
fn layout_refuses_empty_bounds() {
    assert_eq!(compute_pyramid_layout(1, 0, 0, 0), Err(LayoutError::InvalidChunkBounds));
    assert_eq!(compute_pyramid_layout(0, 0, -1, -1), Err(LayoutError::InvalidChunkBounds));
}

#[test]
fn downsample_parent_fills_missing_children_with_grass() {
    let water = vec![1u8; 4];
    let forest = vec![3u8, 3, 3, 2];
    let parent = downsample_parent_tile([Some(&water), None, None, Some(&forest)], 2, 5);
    assert_eq!(parent, vec![1, 2, 2, 3]);
}

#[test]
fn odd_raster_width_is_refused() {
    assert!(matches!(PyramidStreamReducer::new(3, 3), Err(PyramidError::OddCellsPerSide)));
    assert!(PyramidStreamReducer::new(3, 4).is_ok());
}

#[test]
fn one_parent_from_four_children() {
    let mut p = PyramidStreamReducer::new(1, 2).ok().unwrap();
    assert!(p.push_playable_tile(0, 0, vec![2; 4]).ok().unwrap().is_empty());
    assert!(p.push_playable_tile(1, 0, vec![1; 4]).ok().unwrap().is_empty());
    assert!(p.push_playable_tile(0, 1, vec![2; 4]).ok().unwrap().is_empty());
    assert!(p.push_playable_tile(1, 1, vec![2; 4]).ok().unwrap().is_empty());
    let out = p.finish().ok().unwrap();
    assert_eq!(out.len(), 1);
    assert_eq!((out[0].zoom, out[0].x, out[0].y), (0, 0, 0));
    assert_eq!(out[0].cells, vec![2, 1, 2, 2]);
}

#[test]
fn rows_must_not_go_back() {
    let mut p = PyramidStreamReducer::new(2, 2).ok().unwrap();
    assert!(p.push_playable_tile(0, 1, vec![2; 4]).is_ok());
    assert!(matches!(p.push_playable_tile(0, 0, vec![2; 4]), Err(PyramidError::RowsOutOfOrder)));
}

#[test]
fn parents_cascade_level_by_level() {
    let mut p = PyramidStreamReducer::new(2, 2).ok().unwrap();
    let mut emitted = Vec::new();
    for y in 0..4 {
        for x in 0..4 {
            let out = p.push_playable_tile(x, y, vec![2; 4]).ok().unwrap();
            if (x, y) == (0, 3) {
                let pos: Vec<(u8, i32, i32)> = out.iter().map(|t| (t.zoom, t.x, t.y)).collect();
                assert_eq!(pos, vec![(1, 0, 0), (1, 1, 0)]);
            } else {
                assert!(out.is_empty());
            }
            emitted.extend(out);
        }
    }
    let out = p.finish().ok().unwrap();
    let pos: Vec<(u8, i32, i32)> = out.iter().map(|t| (t.zoom, t.x, t.y)).collect();
    assert_eq!(pos, vec![(1, 0, 1), (1, 1, 1), (0, 0, 0)]);
    emitted.extend(out);
    for t in &emitted {
        assert_eq!(t.cells, vec![2; 4]);
    }
    assert_eq!(emitted.len(), 5);
}

#[test]
fn a_level_emits_a_parent_row_when_the_next_parent_row_starts() {
    let mut level = ParentLevelReducer::new(4, 2);
    assert_eq!(level.parent_zoom(), 4);
    assert!(level.ingest_child_tile(0, 0, vec![6; 4]).ok().unwrap().is_empty());
    assert!(level.ingest_child_tile(1, 1, vec![6; 4]).ok().unwrap().is_empty());
    assert!(level.ingest_child_tile(5, 2, vec![6; 4]).ok().unwrap().is_empty());
    let out = level.finish();
    assert_eq!(out.len(), 2);
    assert_eq!((out[0].0, out[0].1), (0, 0));
    assert_eq!(out[0].2, vec![6, 2, 2, 6]);
    assert_eq!((out[1].0, out[1].1), (2, 1));
    assert_eq!(out[1].2, vec![2, 6, 2, 2]);
    assert!(level.ingest_child_tile(0, 0, vec![6; 4]).is_ok());
}

#[test]
fn a_level_refuses_a_row_above_the_current_one() {
    let mut level = ParentLevelReducer::new(0, 2);
    assert!(level.ingest_child_tile(0, 3, vec![2; 4]).is_ok());
    assert!(matches!(level.ingest_child_tile(0, 2, vec![2; 4]), Err(PyramidError::RowsOutOfOrder)));
}

fn grid(rows: &[&str]) -> Vec<u8> {
    rows.iter().flat_map(|r| r.bytes().map(|b| b - b'0')).collect()
}

#[test]
fn dense_road_blocks_erode_from_the_edges_in() {
    let mut cells = grid(&["22222", "27772", "27772", "27772", "22222"]);
    erode_dense_road_clusters(&mut cells, 5);
    assert_eq!(cells, grid(&["22222", "27272", "22222", "27272", "22222"]));
}

#[test]
fn isolated_inner_road_cells_take_their_surroundings() {
    let mut cells = grid(&["22222", "27222", "27222", "22274", "22244"]);
    remove_weak_road_cells(&mut cells, 5);
    assert_eq!(cells, grid(&["22222", "27222", "27222", "22224", "22244"]));
}

#[test]
fn road_gaps_are_bridged_once() {
    let mut cells = grid(&["22222", "22722", "27272", "22722", "22222"]);
    bridge_road_gaps(&mut cells, 5);
    assert_eq!(cells, grid(&["22222", "22722", "27772", "22722", "22222"]));
}

#[test]
fn small_inner_road_components_are_removed() {
    let mut cells = grid(&["555555", "577555", "555555", "555555", "555557", "555557"]);
    remove_small_road_components(&mut cells, 6, 2);
    assert_eq!(cells, grid(&["555555", "555555", "555555", "555555", "555557", "555557"]));
}

#[test]
fn cleanup_skips_fine_levels_and_tiny_rasters() {
    let mut cells = grid(&["22222", "22222", "22722", "22222", "22222"]);
    let before = cells.clone();
    apply_low_lod_road_cleanup(&mut cells, 5, 3);
    assert_eq!(cells, before);
    let mut tiny = vec![7u8, 2, 2, 2];
    apply_low_lod_road_cleanup(&mut tiny, 2, 0);
    assert_eq!(tiny, vec![7, 2, 2, 2]);
}

#[test]
fn cleanup_leaves_rasters_without_roads_alone() {
    let mut cells = grid(&["12345", "23456", "34561", "45612", "56123"]);
    let before = cells.clone();
    apply_low_lod_road_cleanup(&mut cells, 5, 0);
    assert_eq!(cells, before);
}

#[test]
fn every_coarser_tile_is_emitted_once() {
    let tiles = [(-3, -5), (4, -5), (5, -5), (-1, -2), (7, 6), (-8, 6), (2, 9)];
    let zoom_levels: u8 = 3;
    let mut p = PyramidStreamReducer::new(zoom_levels, 2).ok().unwrap();
    let mut emitted: Vec<(u8, i32, i32)> = Vec::new();
    for (x, y) in tiles {
        for t in p.push_playable_tile(x, y, vec![2; 4]).ok().unwrap() {
            assert_eq!(t.cells.len(), 4);
            emitted.push((t.zoom, t.x, t.y));
        }
    }
    for t in p.finish().ok().unwrap() {
        assert_eq!(t.cells.len(), 4);
        emitted.push((t.zoom, t.x, t.y));
    }
    let mut expected: Vec<(u8, i32, i32)> = Vec::new();
    for (x, y) in tiles {
        for k in 1..=zoom_levels {
            let d = 1_i32 << k;
            let key = (zoom_levels - k, x.div_euclid(d), y.div_euclid(d));
            if !expected.contains(&key) {
                expected.push(key);
            }
        }
    }
    let mut sorted = emitted.clone();
    sorted.sort();
    sorted.dedup();
    assert_eq!(sorted.len(), emitted.len());
    expected.sort();
    assert_eq!(sorted, expected);
    assert!(p.finish().ok().unwrap().is_empty());
}

#[test]
fn layouts_that_leave_i32_are_recognised() {
    assert!(layout_in_range(0, 0, 9, 9));
    assert!(layout_in_range(-5, -7, 3, 2));
    assert!(!layout_in_range(i32::MIN, 0, 0, 0));
    assert!(!layout_in_range(-(1 << 30), 0, 1 << 30, 0));
    assert!(!layout_in_range(0, 0, 1 << 30, 0));
    assert!(layout_in_range(-i32::MAX, 0, -i32::MAX + 3, 0));
    assert!(!layout_in_range(-i32::MAX, 0, -i32::MAX + 4, 0));
}
