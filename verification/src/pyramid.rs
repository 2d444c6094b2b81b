//! Coarse levels of the terrain raster: each parent tile covers 2x2 child
//! tiles, every parent cell is decided from a 2x2 block of child cells, and
//! roads at the three coarsest levels are cleaned up so that only corridors
//! remain.
use vstd::prelude::*;
use crate::cells::{
    cardinal_count, col_of, diagonal_count, grid_ok, has_code, in_grid, is_boundary_cell,
    lemma_pos_in_range, lemma_pos_of_index, on_boundary, pos, resolve_downsampled_cell,
    resolved_code, road_diagonal_neighbor_count, road_neighbor_count, row_of, GRASS_CODE, ROAD_CODE,
};
use crate::passes::{
    bridge_gaps_once, bridged, flagged, flagged_positions, gap_pred, lemma_scan_filter_bounds, lemma_side_pos,
    replace_all, replace_with_dominant, scan_filter,
};
use crate::components::{component_touches_boundary, components, find_components, scan_components, touches_boundary};
use crate::stubs::{dangling_stub_mask, lemma_stub_mask_len, stub_at, stub_mask};

verus! {

/// Interior road cell with at least three road edge neighbours and two road
/// corner neighbours: the inside of a road blob.
pub open spec fn dense_road_pred(cells: Seq<u8>, side: int) -> spec_fn(int) -> bool {
    |k: int|
        {
            let x = col_of(k, side);
            let y = row_of(k, side);
            &&& 1 <= x && x + 1 < side && 1 <= y && y + 1 < side
            &&& cells[k] == ROAD_CODE
            &&& !on_boundary(x, y, side)
            &&& cardinal_count(cells, side, x, y, ROAD_CODE) >= 3
            &&& diagonal_count(cells, side, x, y, ROAD_CODE) >= 2
        }
}

/// Road cell off the boundary with no road edge neighbour.
pub open spec fn weak_road_pred(cells: Seq<u8>, side: int) -> spec_fn(int) -> bool {
    |k: int|
        {
            let x = col_of(k, side);
            let y = row_of(k, side);
            &&& cells[k] == ROAD_CODE
            &&& !on_boundary(x, y, side)
            &&& cardinal_count(cells, side, x, y, ROAD_CODE) == 0
        }
}

/// The raster after one erosion pass: the dense road cells of the raster as it
/// stood, in row-major order, each rewritten to its dominant neighbour.
pub open spec fn eroded(cells: Seq<u8>, side: int) -> Seq<u8> {
    replace_all(cells, side, scan_filter(dense_road_pred(cells, side), cells.len()))
}

/// The raster after one pass over isolated road cells.
pub open spec fn weak_removed(cells: Seq<u8>, side: int) -> Seq<u8> {
    replace_all(cells, side, scan_filter(weak_road_pred(cells, side), cells.len()))
}

/// Rewrites the inside of road blobs to the surrounding terrain.
pub fn erode_dense_road_clusters(cells: &mut Vec<u8>, side: usize)
    requires
        grid_ok(old(cells)@, side as int),
    ensures
        final(cells)@ == eroded(old(cells)@, side as int),
        final(cells)@.len() == old(cells)@.len(),
{
    let ghost start = cells@;
    let n = cells.len();
    let mut remove: Vec<usize> = Vec::new();
    let mut k: usize = 0;
    while k < n
        invariant
            0 <= k <= n,
            n == start.len(),
            cells@ == start,
            grid_ok(start, side as int),
            remove@ == scan_filter(dense_road_pred(start, side as int), k as nat),
        decreases n - k,
    {
        proof {
            lemma_side_pos(n as int, side as int, k as int);
            lemma_pos_of_index(k as int, side as int);
        }
        let x = k % side;
        let y = k / side;
        let mut hit = false;
        if x >= 1 && x + 1 < side && y >= 1 && y + 1 < side && cells[k] == ROAD_CODE
            && !is_boundary_cell(x, y, side) {
            let cardinal = road_neighbor_count(cells, side, x, y);
            let diagonal = road_diagonal_neighbor_count(cells, side, x, y);
            hit = cardinal >= 3 && diagonal >= 2;
        }
        if hit {
            remove.push(k);
        }
        k = k + 1;
    }
    proof {
        lemma_scan_filter_bounds(dense_road_pred(start, side as int), n as nat);
    }
    replace_with_dominant(cells, side, &remove);
}

/// Rewrites road cells that have no road edge neighbour.
pub fn remove_weak_road_cells(cells: &mut Vec<u8>, side: usize)
    requires
        grid_ok(old(cells)@, side as int),
    ensures
        final(cells)@ == weak_removed(old(cells)@, side as int),
        final(cells)@.len() == old(cells)@.len(),
{
    let ghost start = cells@;
    let n = cells.len();
    let mut remove: Vec<usize> = Vec::new();
    let mut k: usize = 0;
    while k < n
        invariant
            0 <= k <= n,
            n == start.len(),
            cells@ == start,
            grid_ok(start, side as int),
            remove@ == scan_filter(weak_road_pred(start, side as int), k as nat),
        decreases n - k,
    {
        proof {
            lemma_side_pos(n as int, side as int, k as int);
            lemma_pos_of_index(k as int, side as int);
        }
        let x = k % side;
        let y = k / side;
        let mut hit = false;
        if cells[k] == ROAD_CODE && !is_boundary_cell(x, y, side) {
            hit = road_neighbor_count(cells, side, x, y) == 0;
        }
        if hit {
            remove.push(k);
        }
        k = k + 1;
    }
    proof {
        lemma_scan_filter_bounds(weak_road_pred(start, side as int), n as nat);
    }
    replace_with_dominant(cells, side, &remove);
}

/// Turns into road every interior cell whose opposite edge neighbours are both
/// roads.
pub fn bridge_road_gaps(cells: &mut Vec<u8>, side: usize)
    requires
        grid_ok(old(cells)@, side as int),
    ensures
        final(cells)@ == bridged(old(cells)@, side as int, ROAD_CODE),
        final(cells)@.len() == old(cells)@.len(),
{
    bridge_gaps_once(cells, side, ROAD_CODE);
}


/// The cells of the components among the first `n` that are at most `max`
/// cells large and do not touch the boundary, component after component.
pub open spec fn small_interior_cells(comps: Seq<Seq<usize>>, side: int, max: nat, n: nat) -> Seq<usize>
    decreases n,
{
    if n == 0 {
        Seq::empty()
    } else {
        let prev = small_interior_cells(comps, side, max, (n - 1) as nat);
        let c = comps[n - 1];
        if !touches_boundary(c, side) && c.len() <= max {
            prev + c
        } else {
            prev
        }
    }
}

/// The raster with every small road component away from the boundary
/// rewritten, cell by cell in search order, to the dominant neighbour.
pub open spec fn small_roads_removed(cells: Seq<u8>, side: int, max: nat) -> Seq<u8> {
    let comps = components(cells, side, ROAD_CODE);
    replace_all(cells, side, small_interior_cells(comps, side, max, comps.len()))
}

/// The raster with the cells of every removable stub rewritten, in row-major
/// order, to the dominant neighbour.
pub open spec fn stubs_trimmed(cells: Seq<u8>, side: int, max: nat) -> Seq<u8> {
    replace_all(cells, side, scan_filter(flagged(stub_mask(cells, side, max, cells.len())), cells.len()))
}

/// One cleanup round: erosion, then isolated cells, then gap bridging.
pub open spec fn cleanup_round(cells: Seq<u8>, side: int) -> Seq<u8> {
    bridged(weak_removed(eroded(cells, side), side), side, ROAD_CODE)
}

pub open spec fn cleanup_rounds(cells: Seq<u8>, side: int, n: nat) -> Seq<u8>
    decreases n,
{
    if n == 0 {
        cells
    } else {
        cleanup_round(cleanup_rounds(cells, side, (n - 1) as nat), side)
    }
}

/// Road cleanup of a parent tile at zoom `zoom`: nothing above zoom 2 or on
/// rasters under three cells wide; otherwise 3, 2 or 1 rounds (zoom 0, 1, 2),
/// then components of at most 8, 7 or 6 cells and stubs of at most 6, 5 or 4
/// cells are removed.
pub open spec fn low_lod_cleaned(cells: Seq<u8>, side: int, zoom: u8) -> Seq<u8> {
    if side < 3 || zoom > 2 {
        cells
    } else {
        let rounds: nat = if zoom == 0 {
            3
        } else if zoom == 1 {
            2
        } else {
            1
        };
        let max_component: nat = if zoom == 0 {
            8
        } else if zoom == 1 {
            7
        } else {
            6
        };
        let max_stub: nat = if zoom == 0 {
            6
        } else if zoom == 1 {
            5
        } else {
            4
        };
        stubs_trimmed(
            small_roads_removed(cleanup_rounds(cells, side, rounds), side, max_component),
            side,
            max_stub,
        )
    }
}

/// Rewrites small road components that do not touch the boundary.
pub fn remove_small_road_components(cells: &mut Vec<u8>, side: usize, max_component_size: usize)
    requires
        grid_ok(old(cells)@, side as int),
    ensures
        final(cells)@ == small_roads_removed(old(cells)@, side as int, max_component_size as nat),
        final(cells)@.len() == old(cells)@.len(),
{
    let ghost start = cells@;
    let comps = find_components(cells, side, ROAD_CODE);
    let ghost spec_comps = components(start, side as int, ROAD_CODE);
    let n = cells.len();
    let mut remove: Vec<usize> = Vec::new();
    let mut i: usize = 0;
    while i < comps.len()
        invariant
            0 <= i <= comps@.len(),
            n == start.len(),
            grid_ok(start, side as int),
            comps@.len() == spec_comps.len(),
            forall|a: int| 0 <= a < comps@.len() ==> #[trigger] comps@[a]@ == spec_comps[a],
            forall|a: int, b: int| 0 <= a < comps@.len() && 0 <= b < comps@[a]@.len() ==> comps@[a]@[b] < n,
            remove@ == small_interior_cells(spec_comps, side as int, max_component_size as nat, i as nat),
            forall|j: int| 0 <= j < remove@.len() ==> remove@[j] < n,
        decreases comps@.len() - i,
    {
        let comp = &comps[i];
        assert(comp@ == comps@[i as int]@);
        if comp.len() > 0 {
            proof {
                lemma_side_pos(n as int, side as int, comp@[0] as int);
            }
        }
        let small = comp.len() <= max_component_size && (comp.len() == 0 || !component_touches_boundary(comp, side));
        if comp.len() == 0 {
            assert(!touches_boundary(comp@, side as int));
        }
        if small {
            let ghost r0 = remove@;
            let mut j: usize = 0;
            while j < comp.len()
                invariant
                    0 <= j <= comp@.len(),
                    forall|b: int| 0 <= b < comp@.len() ==> comp@[b] < n,
                    remove@ == r0 + comp@.take(j as int),
                    forall|t: int| 0 <= t < remove@.len() ==> remove@[t] < n,
                decreases comp@.len() - j,
            {
                remove.push(comp[j]);
                proof {
                    assert(comp@.take(j + 1) =~= comp@.take(j as int).push(comp@[j as int]));
                    assert(r0 + comp@.take(j + 1) =~= (r0 + comp@.take(j as int)).push(comp@[j as int]));
                }
                j = j + 1;
            }
            proof {
                assert(comp@.take(comp@.len() as int) =~= comp@);
            }
        }
        i = i + 1;
    }
    replace_with_dominant(cells, side, &remove);
}

/// Rewrites short dangling road stubs (see `stub_mask`).
pub fn trim_short_dangling_roads(cells: &mut Vec<u8>, side: usize, max_stub_len: usize)
    requires
        grid_ok(old(cells)@, side as int),
    ensures
        final(cells)@ == stubs_trimmed(old(cells)@, side as int, max_stub_len as nat),
        final(cells)@.len() == old(cells)@.len(),
{
    let mask = dangling_stub_mask(cells, side, max_stub_len);
    proof {
        lemma_stub_mask_len(cells@, side as int, max_stub_len as nat, cells@.len());
    }
    let list = flagged_positions(&mask);
    replace_with_dominant(cells, side, &list);
}

/// Road cleanup of a parent tile at the coarse zooms (see `low_lod_cleaned`).
pub fn apply_low_lod_road_cleanup(cells: &mut Vec<u8>, side: usize, parent_zoom: u8)
    requires
        grid_ok(old(cells)@, side as int),
    ensures
        final(cells)@ == low_lod_cleaned(old(cells)@, side as int, parent_zoom),
        final(cells)@.len() == old(cells)@.len(),
{
    if side < 3 || parent_zoom > 2 {
        return;
    }
    let ghost start = cells@;
    let cleanup_passes: usize = match parent_zoom {
        0 => 3,
        1 => 2,
        _ => 1,
    };
    let mut pass: usize = 0;
    while pass < cleanup_passes
        invariant
            0 <= pass <= cleanup_passes,
            grid_ok(start, side as int),
            cells@.len() == start.len(),
            cells@ == cleanup_rounds(start, side as int, pass as nat),
        decreases cleanup_passes - pass,
    {
        erode_dense_road_clusters(cells, side);
        remove_weak_road_cells(cells, side);
        bridge_road_gaps(cells, side);
        pass = pass + 1;
    }
    let max_component_size: usize = match parent_zoom {
        0 => 8,
        1 => 7,
        _ => 6,
    };
    let max_stub_len: usize = match parent_zoom {
        0 => 6,
        1 => 5,
        _ => 4,
    };
    remove_small_road_components(cells, side, max_component_size);
    trim_short_dangling_roads(cells, side, max_stub_len);
}


pub open spec fn child_view(child: Option<&Vec<u8>>) -> Option<Seq<u8>> {
    match child {
        Some(v) => Some(v@),
        None => None,
    }
}

/// Code of parent cell `k` before cleanup: the quadrant of the parent tile
/// names the child tile (top-left, top-right, bottom-left, bottom-right); a
/// missing child gives grass, otherwise the 2x2 block of the child under the
/// cell is resolved.
pub open spec fn parent_cell_code(children: Seq<Option<Seq<u8>>>, side: int, k: int) -> u8 {
    let px = col_of(k, side);
    let py = row_of(k, side);
    let h = side / 2;
    let qx: int = if px >= h {
        1
    } else {
        0
    };
    let qy: int = if py >= h {
        1
    } else {
        0
    };
    match children[qy * 2 + qx] {
        None => GRASS_CODE,
        Some(c) => {
            let bx = (px % h) * 2;
            let by = (py % h) * 2;
            resolved_code(
                seq![
                    c[by * side + bx],
                    c[by * side + bx + 1],
                    c[(by + 1) * side + bx],
                    c[(by + 1) * side + bx + 1],
                ],
            )
        },
    }
}

/// The parent tile of four children, after road cleanup for its zoom.
pub open spec fn downsampled(children: Seq<Option<Seq<u8>>>, side: int, zoom: u8) -> Seq<u8> {
    low_lod_cleaned(Seq::new((side * side) as nat, |k: int| parent_cell_code(children, side, k)), side, zoom)
}

proof fn lemma_block_positions(bx: int, by: int, side: int)
    requires
        0 <= bx,
        bx + 1 < side,
        0 <= by,
        by + 1 < side,
    ensures
        (by + 1) * side + bx + 1 < side * side,
        (by + 1) * side == by * side + side,
        0 <= by * side,
{
    assert((by + 1) * side + bx + 1 < side * side) by (nonlinear_arith)
        requires
            0 <= bx,
            bx + 1 < side,
            0 <= by,
            by + 1 < side,
    ;
    assert((by + 1) * side == by * side + side) by (nonlinear_arith);
    assert(0 <= by * side) by (nonlinear_arith)
        requires
            0 <= by,
            0 <= side,
    ;
}

/// Builds a parent tile from its four children (top-left, top-right,
/// bottom-left, bottom-right), each `cells_per_side` cells wide.
pub fn downsample_parent_tile(children: [Option<&Vec<u8>>; 4], cells_per_side: usize, parent_zoom: u8) -> (parent: Vec<u8>)
    requires
        cells_per_side % 2 == 0,
        cells_per_side * cells_per_side <= usize::MAX,
        forall|i: int|
            0 <= i < 4 ==> match #[trigger] children@[i] {
                Some(c) => c@.len() >= cells_per_side * cells_per_side,
                None => true,
            },
    ensures
        parent@ == downsampled(children@.map_values(|c: Option<&Vec<u8>>| child_view(c)), cells_per_side as int, parent_zoom),
        parent@.len() == cells_per_side * cells_per_side,
{
    let ghost kids = children@.map_values(|c: Option<&Vec<u8>>| child_view(c));
    let side = cells_per_side;
    let n = side * side;
    let half = side / 2;
    let mut parent_cells: Vec<u8> = Vec::new();
    let mut k: usize = 0;
    while k < n
        invariant
            0 <= k <= n,
            n == side * side,
            half == side / 2,
            side % 2 == 0,
            kids == children@.map_values(|c: Option<&Vec<u8>>| child_view(c)),
            forall|i: int|
                0 <= i < 4 ==> match #[trigger] children@[i] {
                    Some(c) => c@.len() >= side * side,
                    None => true,
                },
            parent_cells@ =~= Seq::new(k as nat, |j: int| parent_cell_code(kids, side as int, j)),
        decreases n - k,
    {
        proof {
            lemma_side_pos(n as int, side as int, k as int);
            lemma_pos_of_index(k as int, side as int);
        }
        let px = k % side;
        let py = k / side;
        let qx: usize = if px >= half {
            1
        } else {
            0
        };
        let qy: usize = if py >= half {
            1
        } else {
            0
        };
        let child_index = qy * 2 + qx;
        let code = match children[child_index] {
            None => GRASS_CODE,
            Some(child_cells) => {
                proof {
                    vstd::arithmetic::div_mod::lemma_mod_bound(px as int, half as int);
                    vstd::arithmetic::div_mod::lemma_mod_bound(py as int, half as int);
                }
                let bx = (px % half) * 2;
                let by = (py % half) * 2;
                proof {
                    lemma_block_positions(bx as int, by as int, side as int);
                }
                let row0 = by * side;
                let row1 = row0 + side;
                let s00 = child_cells[row0 + bx];
                let s10 = child_cells[row0 + bx + 1];
                let s01 = child_cells[row1 + bx];
                let s11 = child_cells[row1 + bx + 1];
                let samples = [s00, s10, s01, s11];
                assert(samples@ =~= seq![s00, s10, s01, s11]);
                resolve_downsampled_cell(samples)
            },
        };
        proof {
            assert(kids[child_index as int] == child_view(children@[child_index as int]));
        }
        parent_cells.push(code);
        k = k + 1;
    }
    apply_low_lod_road_cleanup(&mut parent_cells, side, parent_zoom);
    parent_cells
}


pub open spec fn pow2(n: nat) -> nat
    decreases n,
{
    if n == 0 {
        1
    } else {
        2 * pow2((n - 1) as nat)
    }
}

/// `r` is the smallest exponent with `2^r >= value`.
pub open spec fn is_ceil_log2(value: int, r: nat) -> bool {
    if value <= 1 {
        r == 0
    } else {
        pow2((r - 1) as nat) < value <= pow2(r) && r >= 1
    }
}

/// Smallest `r` with `2^r >= value`.
pub fn ceil_log2(value: u32) -> (r: u8)
    ensures
        is_ceil_log2(value as int, r as nat),
        r <= 32,
{
    if value <= 1 {
        return 0;
    }
    let mut r: u8 = 0;
    let mut p: u64 = 1;
    while p < value as u64
        invariant
            r <= 32,
            p == pow2(r as nat),
            p >= 1,
            p <= 2 * (value as int),
            value > 1,
            r > 0 ==> pow2((r - 1) as nat) < value,
        decreases 2 * (value as int) - p,
    {
        proof {
            assert(pow2((r + 1) as nat) == 2 * pow2(r as nat));
            if r >= 32 {
                lemma_pow2_32();
                lemma_pow2_mono(32, r as nat);
                assert(false);
            }
        }
        p = p * 2;
        r = r + 1;
    }
    r
}

proof fn lemma_pow2_32()
    ensures
        pow2(32) == 0x1_0000_0000,
{
    reveal_with_fuel(pow2, 33);
}

/// Chunk side of the playable level, in metres.
pub const CHUNK_SIZE_METERS: u32 = 1024;

/// Placement of the playable chunks in the pyramid: the zoom of the playable
/// level and the offset that centres the chunk bounds in its square grid.
#[derive(Debug, Clone, Copy, PartialEq, Eq, Structural)]
pub struct PyramidLayout {
    pub playable_zoom_level: u8,
    pub playable_tile_offset_x: i32,
    pub playable_tile_offset_y: i32,
    pub playable_tile_size_m: u32,
}

/// Why a layout could not be computed.
#[derive(Debug, Clone, Copy, PartialEq, Eq, Structural)]
pub enum LayoutError {
    /// The maximum chunk is before the minimum one.
    InvalidChunkBounds,
}

pub open spec fn layout_zoom(min_x: int, min_y: int, max_x: int, max_y: int) -> nat {
    let w = max_x - min_x + 1;
    let h = max_y - min_y + 1;
    let m = if w > h { w } else { h };
    zoom_for(m)
}

/// The smallest `r` with `2^r >= m`.
pub open spec fn zoom_for(m: int) -> nat {
    choose|r: nat| #[trigger] is_ceil_log2(m, r)
}

/// Offset that centres `span` chunks starting at `min` in a grid of `side`.
pub open spec fn centre_offset(min: int, span: int, side: int) -> int {
    -min + (side - span) / 2
}

/// The computation stays within `i32`: spans, a grid of at most 2^30 chunks
/// per side, and the offsets.
pub open spec fn layout_fits(min_x: int, min_y: int, max_x: int, max_y: int) -> bool {
    let w = max_x - min_x + 1;
    let h = max_y - min_y + 1;
    let z = layout_zoom(min_x, min_y, max_x, max_y);
    &&& w <= i32::MAX && h <= i32::MAX
    &&& z <= 30
    &&& min_x > i32::MIN && min_y > i32::MIN
    &&& centre_offset(min_x, w, pow2(z) as int) <= i32::MAX
    &&& centre_offset(min_y, h, pow2(z) as int) <= i32::MAX
}

/// Whether the layout of these chunk bounds stays within `i32` tile
/// coordinates (`compute_pyramid_layout` needs it).
pub fn layout_in_range(min_x: i32, min_y: i32, max_x: i32, max_y: i32) -> (b: bool)
    requires
        max_x >= min_x,
        max_y >= min_y,
    ensures
        b == layout_fits(min_x as int, min_y as int, max_x as int, max_y as int),
{
    let w: i64 = max_x as i64 - min_x as i64 + 1;
    let h: i64 = max_y as i64 - min_y as i64 + 1;
    if w > i32::MAX as i64 || h > i32::MAX as i64 || min_x == i32::MIN || min_y == i32::MIN {
        return false;
    }
    let longer: u32 = if w > h { w as u32 } else { h as u32 };
    let zoom = ceil_log2(longer);
    proof {
        let m: int = if w > h { w as int } else { h as int };
        lemma_ceil_log2_unique(m, zoom as nat, layout_zoom(min_x as int, min_y as int, max_x as int, max_y as int));
    }
    if zoom > 30 {
        return false;
    }
    proof {
        lemma_pow2_bound(zoom as nat);
    }
    let grid_side: i64 = 1i64 << zoom;
    assert(grid_side == pow2(zoom as nat)) by {
        lemma_shift_is_pow2(zoom as nat);
    }
    let offset_x: i64 = -(min_x as i64) + (grid_side - w) / 2;
    let offset_y: i64 = -(min_y as i64) + (grid_side - h) / 2;
    offset_x <= i32::MAX as i64 && offset_y <= i32::MAX as i64
}

/// Places the playable chunk bounds in the pyramid: the playable zoom is the
/// smallest `z` with `2^z` chunks covering the longer side, and the bounds
/// are centred in the `2^z` by `2^z` grid.
pub fn compute_pyramid_layout(min_chunk_x: i32, min_chunk_y: i32, max_chunk_x: i32, max_chunk_y: i32) -> (r: Result<PyramidLayout, LayoutError>)
    requires
        max_chunk_x >= min_chunk_x && max_chunk_y >= min_chunk_y ==> layout_fits(min_chunk_x as int, min_chunk_y as int, max_chunk_x as int, max_chunk_y as int),
    ensures
        !(max_chunk_x >= min_chunk_x && max_chunk_y >= min_chunk_y) <==> r is Err,
        r matches Err(e) ==> e == LayoutError::InvalidChunkBounds,
        r matches Ok(l) ==> {
            let z = layout_zoom(min_chunk_x as int, min_chunk_y as int, max_chunk_x as int, max_chunk_y as int);
            &&& l.playable_zoom_level == z
            &&& l.playable_tile_offset_x == centre_offset(min_chunk_x as int, max_chunk_x - min_chunk_x + 1, pow2(z) as int)
            &&& l.playable_tile_offset_y == centre_offset(min_chunk_y as int, max_chunk_y - min_chunk_y + 1, pow2(z) as int)
            &&& l.playable_tile_size_m == CHUNK_SIZE_METERS
        },
{
    if !(max_chunk_x >= min_chunk_x && max_chunk_y >= min_chunk_y) {
        return Err(LayoutError::InvalidChunkBounds);
    }
    let width = max_chunk_x - min_chunk_x + 1;
    let height = max_chunk_y - min_chunk_y + 1;
    let longer: u32 = if width > height { width as u32 } else { height as u32 };
    let zoom = ceil_log2(longer);
    proof {
        let m: int = if width > height { width as int } else { height as int };
        lemma_ceil_log2_unique(m, zoom as nat, layout_zoom(min_chunk_x as int, min_chunk_y as int, max_chunk_x as int, max_chunk_y as int));
        lemma_pow2_bound(zoom as nat);
    }
    let grid_side: i64 = 1i64 << zoom;
    assert(grid_side == pow2(zoom as nat)) by {
        lemma_shift_is_pow2(zoom as nat);
    }
    let offset_x = -(min_chunk_x as i64) + (grid_side - width as i64) / 2;
    let offset_y = -(min_chunk_y as i64) + (grid_side - height as i64) / 2;
    Ok(PyramidLayout {
        playable_zoom_level: zoom,
        playable_tile_offset_x: offset_x as i32,
        playable_tile_offset_y: offset_y as i32,
        playable_tile_size_m: CHUNK_SIZE_METERS,
    })
}

proof fn lemma_pow2_mono(a: nat, b: nat)
    requires
        a <= b,
    ensures
        pow2(a) <= pow2(b),
    decreases b,
{
    if a < b {
        lemma_pow2_mono(a, (b - 1) as nat);
    }
}

proof fn lemma_ceil_log2_unique(v: int, a: nat, b: nat)
    requires
        is_ceil_log2(v, a),
        is_ceil_log2(v, b) || b == zoom_for(v),
    ensures
        a == b,
{
    assert(is_ceil_log2(v, b)) by {
        if !is_ceil_log2(v, b) {
            assert(is_ceil_log2(v, a));
        }
    }
    if v > 1 {
        if a < b {
            lemma_pow2_mono(a, (b - 1) as nat);
        } else if b < a {
            lemma_pow2_mono(b, (a - 1) as nat);
        }
    }
}

proof fn lemma_pow2_bound(z: nat)
    requires
        z <= 30,
    ensures
        pow2(z) <= 0x4000_0000,
{
    lemma_pow2_mono(z, 30);
    reveal_with_fuel(pow2, 31);
}

proof fn lemma_shift_is_pow2(z: nat)
    requires
        z <= 30,
    ensures
        (1i64 << z) == pow2(z),
    decreases z,
{
    reveal_with_fuel(pow2, 31);
    assert((1i64 << 0u64) == 1i64) by (bit_vector);
    if z > 0 {
        lemma_shift_is_pow2((z - 1) as nat);
        let y = (z - 1) as u64;
        assert(y < 30 ==> (1i64 << (y + 1)) == 2 * (1i64 << y)) by (bit_vector);
    }
}

/// No cell holds a road.
pub open spec fn no_road(cells: Seq<u8>) -> bool {
    forall|k: int| 0 <= k < cells.len() ==> #[trigger] cells[k] != ROAD_CODE
}

pub(crate) proof fn lemma_scan_filter_none(pred: spec_fn(int) -> bool, n: nat)
    requires
        forall|k: int| 0 <= k < n ==> !#[trigger] pred(k),
    ensures
        scan_filter(pred, n) == Seq::<usize>::empty(),
    decreases n,
{
    if n > 0 {
        lemma_scan_filter_none(pred, (n - 1) as nat);
    }
}

pub(crate) proof fn lemma_no_road_has_code(cells: Seq<u8>, side: int, x: int, y: int)
    requires
        grid_ok(cells, side),
        no_road(cells),
    ensures
        !has_code(cells, side, x, y, ROAD_CODE),
{
    if in_grid(x, y, side) {
        lemma_pos_in_range(x, y, side);
        assert(cells[pos(x, y, side)] != ROAD_CODE);
    }
}

pub(crate) proof fn lemma_round_keeps_roadless(cells: Seq<u8>, side: int)
    requires
        grid_ok(cells, side),
        no_road(cells),
    ensures
        cleanup_round(cells, side) == cells,
{
    lemma_scan_filter_none(dense_road_pred(cells, side), cells.len());
    assert(eroded(cells, side) == cells);
    lemma_scan_filter_none(weak_road_pred(cells, side), cells.len());
    assert(weak_removed(cells, side) == cells);
    assert forall|k: int| 0 <= k < cells.len() implies !#[trigger] gap_pred(cells, side, ROAD_CODE)(k) by {
        let x = col_of(k, side);
        let y = row_of(k, side);
        lemma_no_road_has_code(cells, side, x, y - 1);
        lemma_no_road_has_code(cells, side, x - 1, y);
    }
    assert(bridged(cells, side, ROAD_CODE) =~= cells);
}

proof fn lemma_rounds_keep_roadless(cells: Seq<u8>, side: int, n: nat)
    requires
        grid_ok(cells, side),
        no_road(cells),
    ensures
        cleanup_rounds(cells, side, n) == cells,
    decreases n,
{
    if n > 0 {
        lemma_rounds_keep_roadless(cells, side, (n - 1) as nat);
        lemma_round_keeps_roadless(cells, side);
    }
}

pub(crate) proof fn lemma_scan_components_none(cells: Seq<u8>, side: int, n: nat)
    requires
        no_road(cells),
    ensures
        scan_components(cells, side, ROAD_CODE, n).1.len() == 0,
    decreases n,
{
    if n > 0 {
        lemma_scan_components_none(cells, side, (n - 1) as nat);
    }
}

pub(crate) proof fn lemma_stub_mask_none(cells: Seq<u8>, side: int, max: nat, n: nat)
    requires
        no_road(cells),
        n <= cells.len(),
    ensures
        stub_mask(cells, side, max, n) == Seq::new(cells.len(), |j: int| false),
    decreases n,
{
    if n > 0 {
        lemma_stub_mask_none(cells, side, max, (n - 1) as nat);
        assert(stub_at(cells, side, max, n - 1) is None);
    }
}

/// Law: the coarse-level cleanup only concerns roads; a raster without roads
/// comes out of it unchanged.
pub proof fn lemma_cleanup_keeps_roadless(cells: Seq<u8>, side: int, zoom: u8)
    requires
        grid_ok(cells, side),
        no_road(cells),
    ensures
        low_lod_cleaned(cells, side, zoom) == cells,
{
    if !(side < 3 || zoom > 2) {
        let rounds: nat = if zoom == 0 { 3 } else if zoom == 1 { 2 } else { 1 };
        let max_component: nat = if zoom == 0 { 8 } else if zoom == 1 { 7 } else { 6 };
        let max_stub: nat = if zoom == 0 { 6 } else if zoom == 1 { 5 } else { 4 };
        lemma_rounds_keep_roadless(cells, side, rounds);
        lemma_scan_components_none(cells, side, cells.len());
        assert(small_interior_cells(components(cells, side, ROAD_CODE), side, max_component, 0) == Seq::<usize>::empty());
        assert(small_roads_removed(cells, side, max_component) == cells);
        lemma_stub_mask_none(cells, side, max_stub, cells.len());
        lemma_scan_filter_none(flagged(stub_mask(cells, side, max_stub, cells.len())), cells.len());
        assert(stubs_trimmed(cells, side, max_stub) == cells);
    }
}

} // verus!
