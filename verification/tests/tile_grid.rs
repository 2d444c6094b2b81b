use bangladesh::features::{area_feature, building_feature, poi_feature};
use bangladesh::raster::{raster_windows, window_chunk_jobs};
use bangladesh::tiles::{
    build_chunk_polygon_index, estimate_window_rows, lod_count, lod_table, merge_chunk_cells, quantized_bounds,
    tile_id, tile_ids_in_index_range, visible_tile_ids, PolygonChunkBounds,
};
use bangladesh::world::{QuantizedBounds, QuantizedPoint, TerrainKind};

fn pcb(min_chunk_x: i32, min_chunk_y: i32, max_chunk_x: i32, max_chunk_y: i32) -> PolygonChunkBounds {
    PolygonChunkBounds { min_chunk_x, min_chunk_y, max_chunk_x, max_chunk_y }
}

fn qp(x: i32, y: i32) -> QuantizedPoint {
    QuantizedPoint { x, y }
}

#[test]
fn tile_ids_are_row_major() {
    assert_eq!(tile_id(5, 2, 3), 17);
    assert_eq!(tile_id(5, 0, 0), 0);
}

#[test]
fn index_ranges_are_clamped_into_the_grid() {
    assert_eq!(tile_ids_in_index_range(4, 3, -2, 1, 1, 9), vec![4, 5, 8, 9]);
    assert_eq!(tile_ids_in_index_range(4, 3, 5, 7, 0, 0), vec![3]);
    assert_eq!(tile_ids_in_index_range(4, 3, 2, 1, 0, 0), Vec::<u32>::new());
    assert_eq!(tile_ids_in_index_range(1, 1, -10, 10, -10, 10), vec![0]);
}

#[test]
fn visible_tiles_are_cut_to_the_grid() {
    assert_eq!(visible_tile_ids(4, 3, -1, 1, -5, 0), vec![0, 1]);
    assert_eq!(visible_tile_ids(4, 3, 5, 9, 0, 2), Vec::<u32>::new());
    assert_eq!(visible_tile_ids(4, 3, 2, 3, 1, 7), vec![6, 7, 10, 11]);
}

#[test]
fn chunk_index_spans_every_polygon() {
    let idx = build_chunk_polygon_index(vec![10u8, 20u8], vec![pcb(0, 1, 2, 3), pcb(-1, 5, 0, 6)]);
    assert_eq!((idx.min_chunk_x, idx.min_chunk_y, idx.max_chunk_x, idx.max_chunk_y), (-1, 1, 2, 6));
    assert_eq!(idx.chunk_span_width(), 4);
    assert_eq!(idx.chunk_span_height(), 6);
    assert!(!idx.is_empty());
    assert_eq!(idx.polygon_bounds(1), 20);
    assert_eq!(idx.polygon_chunk_bounds(0), pcb(0, 1, 2, 3));
}

#[test]
fn empty_chunk_index() {
    let idx = build_chunk_polygon_index(Vec::<u8>::new(), Vec::new());
    assert!(idx.is_empty());
    assert_eq!((idx.min_chunk_x, idx.min_chunk_y, idx.max_chunk_x, idx.max_chunk_y), (0, 0, -1, -1));
    assert_eq!(idx.chunk_span_width(), 0);
    assert_eq!(idx.chunk_span_height(), 0);
}

#[test]
fn row_windows_of_a_polygon() {
    let b = pcb(0, 1, 0, 3);
    assert!(b.intersects_row_window(3, 5));
    assert!(b.intersects_row_window(-2, 1));
    assert!(!b.intersects_row_window(4, 5));
    assert!(!b.intersects_row_window(-2, 0));
}

#[test]
fn window_heights_follow_the_memory_budget() {
    assert_eq!(estimate_window_rows(256, 10, 512 * 1024 * 1024), 136);
    assert_eq!(estimate_window_rows(256, 1000, 512 * 1024 * 1024), 8);
    assert_eq!(estimate_window_rows(2, 0, 1), 256);
    assert_eq!(estimate_window_rows(usize::MAX, 1, u64::MAX), 256);
}

#[test]
fn merging_keeps_the_higher_priority() {
    let mut left = vec![2u8, 1, 7, 4];
    merge_chunk_cells(&mut left, &vec![1u8, 2, 4]);
    assert_eq!(left, vec![1, 1, 7, 4]);
}

#[test]
fn bounds_of_quantized_points() {
    assert_eq!(
        quantized_bounds(&[qp(1, 5), qp(-3, 2), qp(4, -1)]),
        Some(QuantizedBounds { min_x: -3, min_y: -1, max_x: 4, max_y: 5 })
    );
    assert_eq!(quantized_bounds(&[qp(7, 7)]), Some(QuantizedBounds { min_x: 7, min_y: 7, max_x: 7, max_y: 7 }));
    assert_eq!(quantized_bounds(&[]), None);
}

#[test]
fn lod_count_grows_with_the_map() {
    assert_eq!(lod_count(0), 2);
    assert_eq!(lod_count(1000), 2);
    assert_eq!(lod_count(1001), 2);
    assert_eq!(lod_count(2000), 2);
    assert_eq!(lod_count(2001), 3);
    assert_eq!(lod_count(10_000), 5);
    assert_eq!(lod_count(147_570), 9);
    assert_eq!(lod_count(u64::MAX), 56);
}

#[test]
fn raster_windows_cover_the_rows() {
    assert_eq!(raster_windows(0, 9, 4), vec![(0, 3), (4, 7), (8, 9)]);
    assert_eq!(raster_windows(5, 4, 3), Vec::<(i32, i32)>::new());
    assert_eq!(raster_windows(-2, -2, 100), vec![(-2, -2)]);
    assert_eq!(raster_windows(0, 5, usize::MAX), vec![(0, 5)]);
    assert_eq!(raster_windows(i32::MAX - 1, i32::MAX, 1), vec![(i32::MAX - 1, i32::MAX - 1), (i32::MAX, i32::MAX)]);
}

#[test]
fn window_jobs_list_each_covered_chunk_once() {
    let idx = build_chunk_polygon_index(vec![0u8, 0u8], vec![pcb(0, 0, 1, 1), pcb(1, 1, 2, 2)]);
    let jobs = window_chunk_jobs(&idx, 1, 2);
    let seen: Vec<(i32, i32, Vec<usize>)> = jobs.into_iter().map(|j| (j.chunk_x, j.chunk_y, j.polygons)).collect();
    assert_eq!(
        seen,
        vec![(0, 1, vec![0]), (1, 1, vec![0, 1]), (2, 1, vec![1]), (1, 2, vec![1]), (2, 2, vec![1])]
    );
    let first: Vec<(i32, i32, Vec<usize>)> = window_chunk_jobs(&idx, 0, 0).into_iter().map(|j| (j.chunk_x, j.chunk_y, j.polygons)).collect();
    assert_eq!(first, vec![(0, 0, vec![0]), (1, 0, vec![0])]);
    assert!(window_chunk_jobs(&idx, 3, 9).is_empty());
}

#[test]
fn area_and_building_features_carry_their_bounds() {
    let a = area_feature(TerrainKind::Water, vec![qp(0, 0), qp(4, 1), qp(2, 5)]).unwrap();
    assert_eq!(a.kind, TerrainKind::Water);
    assert_eq!(a.bounds, QuantizedBounds { min_x: 0, min_y: 0, max_x: 4, max_y: 5 });
    assert_eq!(a.rings.len(), 1);
    assert_eq!(a.rings[0], vec![qp(0, 0), qp(4, 1), qp(2, 5)]);
    assert!(area_feature(TerrainKind::Grass, Vec::new()).is_none());
    let b = building_feature(vec![qp(-1, 2), qp(3, -4)]).unwrap();
    assert_eq!(b.bounds, QuantizedBounds { min_x: -1, min_y: -4, max_x: 3, max_y: 2 });
    assert_eq!(b.footprint.len(), 2);
    assert!(building_feature(Vec::new()).is_none());
}

#[test]
fn point_features_follow_level_visibility() {
    let p = poi_feature("amenity:cafe".to_string(), Some("Cafe".to_string()), qp(1, 2), 2).unwrap();
    assert_eq!(p.kind, "amenity:cafe");
    assert_eq!(p.name, Some("Cafe".to_string()));
    assert_eq!(p.point, qp(1, 2));
    assert!(poi_feature("amenity:cafe".to_string(), None, qp(1, 2), 4).is_none());
    assert!(poi_feature("place:village".to_string(), None, qp(0, 0), 9).is_some());
}

#[test]
fn detail_levels_follow_the_table() {
    assert_eq!(lod_table(0), Vec::<(u32, u32)>::new());
    assert_eq!(lod_table(3), vec![(50, 5), (200, 20), (1000, 100)]);
    let long = lod_table(9);
    assert_eq!(long[6], (500000, 50000));
    assert_eq!(long[8], (500000, 50000));
}
