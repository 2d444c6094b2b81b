use bangladesh::cells::{cell_index, in_bounds, resolve_downsampled_cell};
use bangladesh::pyramid::apply_low_lod_road_cleanup;
use bangladesh::world::TerrainKind;
use std::collections::VecDeque;

const CARDINAL_DIRS: [(isize, isize); 4] = [(1, 0), (-1, 0), (0, 1), (0, -1)];

fn largest_road_component(cells: &[u8], side: usize) -> usize {
    let road_code = TerrainKind::Road.code();
    let mut visited = vec![false; cells.len()];
    let mut best = 0_usize;

    for y in 0..side {
        for x in 0..side {
            let root_idx = cell_index(x, y, side);
            if visited[root_idx] || cells[root_idx] != road_code {
                continue;
            }

            let mut queue = VecDeque::new();
            let mut size = 0_usize;
            visited[root_idx] = true;
            queue.push_back((x, y));

            while let Some((cx, cy)) = queue.pop_front() {
                size += 1;

                for (dx, dy) in CARDINAL_DIRS {
                    let nx = cx as isize + dx;
                    let ny = cy as isize + dy;
                    if !in_bounds(nx, ny, side) {
                        continue;
                    }

                    let nxu = nx as usize;
                    let nyu = ny as usize;
                    let nidx = cell_index(nxu, nyu, side);
                    if visited[nidx] || cells[nidx] != road_code {
                        continue;
                    }

                    visited[nidx] = true;
                    queue.push_back((nxu, nyu));
                }
            }

            best = best.max(size);
        }
    }

    best
}

fn road_count(cells: &[u8]) -> usize {
    cells
        .iter()
        .filter(|code| **code == TerrainKind::Road.code())
        .count()
}

#[test]
fn downsample_prefers_majority_over_priority() {
    let resolved = resolve_downsampled_cell([
        TerrainKind::Water.code(),
        TerrainKind::Grass.code(),
        TerrainKind::Grass.code(),
        TerrainKind::Grass.code(),
    ]);
    assert_eq!(resolved, TerrainKind::Grass.code());
}

#[test]
fn downsample_edge_connected_water_tie_is_preserved() {
    let resolved = resolve_downsampled_cell([
        TerrainKind::Water.code(),
        TerrainKind::Water.code(),
        TerrainKind::Grass.code(),
        TerrainKind::Grass.code(),
    ]);
    assert_eq!(resolved, TerrainKind::Water.code());
}

#[test]
fn downsample_diagonal_water_tie_stays_land() {
    let resolved = resolve_downsampled_cell([
        TerrainKind::Water.code(),
        TerrainKind::Grass.code(),
        TerrainKind::Grass.code(),
        TerrainKind::Water.code(),
    ]);
    assert_eq!(resolved, TerrainKind::Grass.code());
}

#[test]
fn downsample_edge_connected_road_tie_is_preserved() {
    let resolved = resolve_downsampled_cell([
        TerrainKind::Road.code(),
        TerrainKind::Road.code(),
        TerrainKind::Grass.code(),
        TerrainKind::Grass.code(),
    ]);
    assert_eq!(resolved, TerrainKind::Road.code());
}

#[test]
fn downsample_diagonal_road_tie_stays_land() {
    let resolved = resolve_downsampled_cell([
        TerrainKind::Road.code(),
        TerrainKind::Grass.code(),
        TerrainKind::Grass.code(),
        TerrainKind::Road.code(),
    ]);
    assert_eq!(resolved, TerrainKind::Grass.code());
}

#[test]
fn low_lod_cleanup_removes_orphan_road_cells() {
    let side = 16;
    let mut cells = vec![TerrainKind::Urban.code(); side * side];

    for x in 2..14 {
        cells[cell_index(x, 6, side)] = TerrainKind::Road.code();
    }

    let orphan_idx = cell_index(8, 12, side);
    cells[orphan_idx] = TerrainKind::Road.code();

    apply_low_lod_road_cleanup(&mut cells, side, 0);

    assert_ne!(cells[orphan_idx], TerrainKind::Road.code());
    assert!(largest_road_component(&cells, side) >= 8);
}

#[test]
fn low_lod_cleanup_thins_dense_road_blocks() {
    let side = 18;
    let mut cells = vec![TerrainKind::Urban.code(); side * side];

    for y in 5..13 {
        for x in 5..13 {
            cells[cell_index(x, y, side)] = TerrainKind::Road.code();
        }
    }

    let before = road_count(&cells);
    apply_low_lod_road_cleanup(&mut cells, side, 0);
    let after = road_count(&cells);

    assert!(after < before - 10);
    assert_ne!(cells[cell_index(9, 9, side)], TerrainKind::Road.code());
}

#[test]
fn low_lod_cleanup_preserves_major_corridor() {
    let side = 16;
    let mut cells = vec![TerrainKind::Grass.code(); side * side];

    for x in 1..15 {
        cells[cell_index(x, 8, side)] = TerrainKind::Road.code();
    }

    cells[cell_index(12, 3, side)] = TerrainKind::Road.code();
    cells[cell_index(13, 13, side)] = TerrainKind::Road.code();

    apply_low_lod_road_cleanup(&mut cells, side, 1);

    assert!(largest_road_component(&cells, side) >= 10);
    assert_ne!(cells[cell_index(12, 3, side)], TerrainKind::Road.code());
    assert_ne!(cells[cell_index(13, 13, side)], TerrainKind::Road.code());
}
