//! Which cells the road passes may change: only interior road cells, and on
//! rasters of the known codes none of them turns into a road.
use vstd::prelude::*;
use crate::cells::{
    b2i, col_of, dominant_code, grid_ok, in_grid, lemma_pos_in_range, neighbor_bucket_count, neighbor_counts, non_road_hit,
    on_boundary, pick_winner, pos, row_of, GRASS_CODE, ROAD_CODE,
};
use crate::passes::{flagged, gap_pred, bridged, lemma_scan_filter_bounds, lemma_scan_filter_contains, replace_all, scan_filter};
use crate::components::{components, lemma_components_partition, touches_boundary};
use crate::pyramid::{
    cleanup_round, cleanup_rounds, dense_road_pred, eroded, lemma_no_road_has_code, lemma_round_keeps_roadless,
    lemma_scan_components_none, lemma_scan_filter_none, lemma_stub_mask_none, low_lod_cleaned, no_road,
    small_interior_cells, small_roads_removed, stubs_trimmed, weak_removed, weak_road_pred,
};
use crate::refine::{in_road_island, islands_to_grass, stubs_to_grass};
use crate::stubs::{lemma_stub_mask_len, step_candidates, step_to, stub_at, stub_mask, walk, WalkEnd};

verus! {

/// Every cell holds one of the known codes (road, 7, is the highest).
pub open spec fn known_codes(cells: Seq<u8>) -> bool {
    forall|k: int| 0 <= k < cells.len() ==> #[trigger] cells[k] <= ROAD_CODE
}

/// Position `k` is a road cell off the outermost ring.
pub open spec fn interior_road(cells: Seq<u8>, side: int, k: int) -> bool {
    0 <= k < cells.len() && cells[k] == ROAD_CODE && !on_boundary(col_of(k, side), row_of(k, side), side)
}

/// The listed positions are all road cells of the raster.
pub open spec fn all_road(s: Seq<usize>, cells: Seq<u8>) -> bool {
    forall|i: int| 0 <= i < s.len() ==> (#[trigger] s[i]) < cells.len() && cells[s[i] as int] == ROAD_CODE
}

proof fn lemma_winner_not_road(counts: Seq<u8>, n: nat)
    requires
        counts.len() == 8,
        counts[7] == 0,
        n <= 8,
    ensures
        pick_winner(counts, n).0 < ROAD_CODE,
    decreases n,
{
    if n > 0 {
        lemma_winner_not_road(counts, (n - 1) as nat);
    }
}

proof fn lemma_no_high_bucket(cells: Seq<u8>, side: int, x: int, y: int)
    requires
        grid_ok(cells, side),
        known_codes(cells),
    ensures
        !non_road_hit(cells, side, x, y, 7),
{
    if in_grid(x, y, side) {
        lemma_pos_in_range(x, y, side);
        assert(cells[pos(x, y, side)] <= ROAD_CODE);
    }
}

/// On a raster of known codes a replaced road cell never becomes a road.
proof fn lemma_dominant_not_road(cells: Seq<u8>, side: int, x: int, y: int)
    requires
        grid_ok(cells, side),
        known_codes(cells),
    ensures
        dominant_code(cells, side, x, y) < ROAD_CODE,
{
    lemma_no_high_bucket(cells, side, x - 1, y - 1);
    lemma_no_high_bucket(cells, side, x, y - 1);
    lemma_no_high_bucket(cells, side, x + 1, y - 1);
    lemma_no_high_bucket(cells, side, x - 1, y);
    lemma_no_high_bucket(cells, side, x + 1, y);
    lemma_no_high_bucket(cells, side, x - 1, y + 1);
    lemma_no_high_bucket(cells, side, x, y + 1);
    lemma_no_high_bucket(cells, side, x + 1, y + 1);
    assert(!non_road_hit(cells, side, x - 1, y - 1, 7));
    assert(!non_road_hit(cells, side, x, y - 1, 7));
    assert(!non_road_hit(cells, side, x + 1, y - 1, 7));
    assert(!non_road_hit(cells, side, x - 1, y, 7));
    assert(!non_road_hit(cells, side, x + 1, y, 7));
    assert(!non_road_hit(cells, side, x - 1, y + 1, 7));
    assert(!non_road_hit(cells, side, x, y + 1, 7));
    assert(!non_road_hit(cells, side, x + 1, y + 1, 7));
    assert(neighbor_bucket_count(cells, side, x, y, 7) == 0);
    let counts = neighbor_counts(cells, side, x, y);
    assert(counts[7] == 0);
    lemma_winner_not_road(counts, 8);
}

/// Rewriting the listed cells to their dominant neighbour changes no other
/// cell; on a raster of known codes it keeps the codes known and makes no
/// new road.
proof fn lemma_replace_all_changes(cells: Seq<u8>, side: int, list: Seq<usize>)
    requires
        grid_ok(cells, side),
        forall|i: int| 0 <= i < list.len() ==> (#[trigger] list[i]) < cells.len(),
    ensures
        replace_all(cells, side, list).len() == cells.len(),
        forall|k: int| 0 <= k < cells.len() && #[trigger] replace_all(cells, side, list)[k] != cells[k] ==> list.contains(k as usize),
        known_codes(cells) ==> known_codes(replace_all(cells, side, list)),
        known_codes(cells) ==> forall|k: int| 0 <= k < cells.len() && #[trigger] replace_all(cells, side, list)[k] == ROAD_CODE ==> cells[k] == ROAD_CODE,
    decreases list.len(),
{
    if list.len() > 0 {
        let pre = list.drop_last();
        lemma_replace_all_changes(cells, side, pre);
        let c = replace_all(cells, side, pre);
        let k0 = list.last() as int;
        assert(list[list.len() - 1] < cells.len());
        let r = replace_all(cells, side, list);
        assert(r == c.update(k0, dominant_code(c, side, col_of(k0, side), row_of(k0, side))));
        assert forall|k: int| 0 <= k < cells.len() && #[trigger] r[k] != cells[k] implies list.contains(k as usize) by {
            if k == k0 {
                assert(list[list.len() - 1] == k as usize);
            } else {
                assert(c[k] != cells[k]);
                let i = choose|i: int| 0 <= i < pre.len() && pre[i] == k as usize;
                assert(list[i] == k as usize);
            }
        }
        if known_codes(cells) {
            lemma_dominant_not_road(c, side, col_of(k0, side), row_of(k0, side));
            assert forall|k: int| 0 <= k < r.len() implies #[trigger] r[k] <= ROAD_CODE by {
                if k != k0 {
                    assert(r[k] == c[k]);
                }
            }
            assert forall|k: int| 0 <= k < cells.len() && #[trigger] r[k] == ROAD_CODE implies cells[k] == ROAD_CODE by {
                if k != k0 {
                    assert(r[k] == c[k]);
                }
            }
        }
    }
}

proof fn lemma_all_road_concat(a: Seq<usize>, b: Seq<usize>, cells: Seq<u8>)
    requires
        all_road(a, cells),
        all_road(b, cells),
    ensures
        all_road(a + b, cells),
{
    assert forall|i: int| 0 <= i < (a + b).len() implies (#[trigger] (a + b)[i]) < cells.len() && cells[(a + b)[i] as int] == ROAD_CODE by {
        if i < a.len() {
            assert((a + b)[i] == a[i]);
        } else {
            assert((a + b)[i] == b[i - a.len()]);
        }
    }
}

proof fn lemma_step_road(cells: Seq<u8>, side: int, prev: int, cur: int, dx: int, dy: int)
    requires
        grid_ok(cells, side),
        cells.len() <= usize::MAX,
    ensures
        all_road(step_to(cells, side, prev, cur, dx, dy), cells),
{
    let x = col_of(cur, side) + dx;
    let y = row_of(cur, side) + dy;
    if in_grid(x, y, side) && pos(x, y, side) != prev && cells[pos(x, y, side)] == ROAD_CODE {
        lemma_pos_in_range(x, y, side);
        let s = step_to(cells, side, prev, cur, dx, dy);
        assert(s[0] as int == pos(x, y, side));
    }
}

/// The cells a walk may step to are road cells.
proof fn lemma_candidates_road(cells: Seq<u8>, side: int, prev: int, cur: int)
    requires
        grid_ok(cells, side),
        cells.len() <= usize::MAX,
    ensures
        all_road(step_candidates(cells, side, prev, cur), cells),
{
    lemma_step_road(cells, side, prev, cur, 0, -1);
    lemma_step_road(cells, side, prev, cur, 0, 1);
    lemma_step_road(cells, side, prev, cur, -1, 0);
    lemma_step_road(cells, side, prev, cur, 1, 0);
    let a = step_to(cells, side, prev, cur, 0, -1);
    let b = step_to(cells, side, prev, cur, 0, 1);
    let c = step_to(cells, side, prev, cur, -1, 0);
    let d = step_to(cells, side, prev, cur, 1, 0);
    lemma_all_road_concat(a, b, cells);
    lemma_all_road_concat(a + b, c, cells);
    lemma_all_road_concat(a + b + c, d, cells);
}

/// The cells of a walk are interior road cells, but for the last one of a
/// walk that reached the boundary.
proof fn lemma_walk_cells(cells: Seq<u8>, side: int, max: nat, path: Seq<usize>, prev: int, cur: int)
    requires
        grid_ok(cells, side),
        cells.len() <= usize::MAX,
        forall|i: int| 0 <= i < path.len() ==> interior_road(cells, side, #[trigger] path[i] as int),
    ensures
        ({
            let w = walk(cells, side, max, path, prev, cur);
            w.1 != WalkEnd::Boundary ==> forall|i: int| 0 <= i < w.0.len() ==> interior_road(cells, side, #[trigger] w.0[i] as int)
        }),
    decreases max + 2 - path.len(),
{
    if path.len() < max + 2 {
        let cands = step_candidates(cells, side, prev, cur);
        if cands.len() == 1 {
            let next = cands[0] as int;
            lemma_candidates_road(cells, side, prev, cur);
            if !path.contains(next as usize) {
                let p2 = path.push(next as usize);
                if !on_boundary(col_of(next, side), row_of(next, side), side) {
                    assert forall|i: int| 0 <= i < p2.len() implies interior_road(cells, side, #[trigger] p2[i] as int) by {
                        if i < path.len() {
                            assert(p2[i] == path[i]);
                        }
                    }
                    lemma_walk_cells(cells, side, max, p2, cur, next);
                }
            }
        }
    }
}

/// The cells of a removable stub are interior road cells.
proof fn lemma_stub_cells(cells: Seq<u8>, side: int, max: nat, k: int)
    requires
        grid_ok(cells, side),
        cells.len() <= usize::MAX,
        0 <= k < cells.len(),
    ensures
        stub_at(cells, side, max, k) matches Some(path) ==> forall|i: int| 0 <= i < path.len() ==> interior_road(cells, side, #[trigger] path[i] as int),
{
    let x = col_of(k, side);
    let y = row_of(k, side);
    if cells[k] == ROAD_CODE && !on_boundary(x, y, side) {
        let start = seq![k as usize];
        assert forall|i: int| 0 <= i < start.len() implies interior_road(cells, side, #[trigger] start[i] as int) by {
            assert(start[i] == k as usize);
        }
        lemma_walk_cells(cells, side, max, start, k, k);
    }
}

/// Every cell the stub mask marks is an interior road cell.
proof fn lemma_stub_mask_cells(cells: Seq<u8>, side: int, max: nat, n: nat)
    requires
        grid_ok(cells, side),
        cells.len() <= usize::MAX,
        n <= cells.len(),
    ensures
        stub_mask(cells, side, max, n).len() == cells.len(),
        forall|j: int| 0 <= j < cells.len() && #[trigger] stub_mask(cells, side, max, n)[j] ==> interior_road(cells, side, j),
    decreases n,
{
    lemma_stub_mask_len(cells, side, max, n);
    if n > 0 {
        lemma_stub_mask_cells(cells, side, max, (n - 1) as nat);
        lemma_stub_cells(cells, side, max, n - 1);
        let m = stub_mask(cells, side, max, (n - 1) as nat);
        assert forall|j: int| 0 <= j < cells.len() && #[trigger] stub_mask(cells, side, max, n)[j] implies interior_road(cells, side, j) by {
            if !m[j] {
                let path = stub_at(cells, side, max, n - 1)->Some_0;
                assert(path.contains(j as usize));
                let i = choose|i: int| 0 <= i < path.len() && path[i] == j as usize;
                assert(interior_road(cells, side, path[i] as int));
                assert(path[i] as int == j);
            }
        }
    }
}

/// Law: trimming dangling stubs at a pyramid level changes only interior
/// road cells, and on a raster of known codes turns no cell into a road.
pub proof fn lemma_stub_trim_changes_only_interior_roads(cells: Seq<u8>, side: int, max: nat)
    requires
        grid_ok(cells, side),
        cells.len() <= usize::MAX,
    ensures
        stubs_trimmed(cells, side, max).len() == cells.len(),
        forall|k: int| 0 <= k < cells.len() && #[trigger] stubs_trimmed(cells, side, max)[k] != cells[k] ==> interior_road(cells, side, k),
        known_codes(cells) ==> forall|k: int| 0 <= k < cells.len() && #[trigger] stubs_trimmed(cells, side, max)[k] == ROAD_CODE ==> cells[k] == ROAD_CODE,
{
    let n = cells.len();
    lemma_stub_mask_cells(cells, side, max, n);
    let mask = stub_mask(cells, side, max, n);
    let list = scan_filter(flagged(mask), n);
    lemma_scan_filter_bounds(flagged(mask), n);
    lemma_replace_all_changes(cells, side, list);
    assert forall|k: int| 0 <= k < n && #[trigger] stubs_trimmed(cells, side, max)[k] != cells[k] implies interior_road(cells, side, k) by {
        let i = choose|i: int| 0 <= i < list.len() && list[i] == k as usize;
        assert(flagged(mask)(list[i] as int));
        assert(mask[k]);
    }
}

/// Law: turning dangling stubs into grass during refinement changes only
/// interior road cells, and turns no cell into a road.
pub proof fn lemma_stub_grass_changes_only_interior_roads(cells: Seq<u8>, side: int, max: nat)
    requires
        grid_ok(cells, side),
        cells.len() <= usize::MAX,
    ensures
        stubs_to_grass(cells, side, max).len() == cells.len(),
        forall|k: int| 0 <= k < cells.len() && #[trigger] stubs_to_grass(cells, side, max)[k] != cells[k] ==> interior_road(cells, side, k),
        forall|k: int| 0 <= k < cells.len() && #[trigger] stubs_to_grass(cells, side, max)[k] == ROAD_CODE ==> cells[k] == ROAD_CODE,
{
    lemma_stub_mask_cells(cells, side, max, cells.len());
}


/// A cell of a component that does not touch the boundary is off the
/// outermost ring.
proof fn lemma_inner_component_cell(comp: Seq<usize>, side: int, a: int)
    requires
        !touches_boundary(comp, side),
        0 <= a < comp.len(),
    ensures
        !on_boundary(col_of(comp[a] as int, side), row_of(comp[a] as int, side), side),
{
}

/// Cell `x` lies in one of the first `n` components, and that component does
/// not touch the boundary.
pub open spec fn in_inner_component(comps: Seq<Seq<usize>>, side: int, n: nat, x: usize) -> bool {
    exists|i: int, a: int| 0 <= i < n && 0 <= a < comps[i].len() && !touches_boundary(comps[i], side) && #[trigger] comps[i][a] == x
}

/// The cells listed for removal belong to small road components that do not
/// touch the boundary.
proof fn lemma_small_interior_cells(comps: Seq<Seq<usize>>, side: int, max: nat, n: nat)
    requires
        n <= comps.len(),
    ensures
        forall|e: int| 0 <= e < small_interior_cells(comps, side, max, n).len() ==> #[trigger] in_inner_component(comps, side, n, small_interior_cells(comps, side, max, n)[e]),
    decreases n,
{
    if n > 0 {
        lemma_small_interior_cells(comps, side, max, (n - 1) as nat);
        let prev = small_interior_cells(comps, side, max, (n - 1) as nat);
        let c = comps[n - 1];
        let cur = small_interior_cells(comps, side, max, n);
        assert forall|e: int| 0 <= e < cur.len() implies #[trigger] in_inner_component(comps, side, n, cur[e]) by {
            if e < prev.len() {
                assert(cur[e] == prev[e]);
                assert(in_inner_component(comps, side, (n - 1) as nat, prev[e]));
                let (i, a) = choose|i: int, a: int| 0 <= i < n - 1 && 0 <= a < comps[i].len() && !touches_boundary(comps[i], side) && #[trigger] comps[i][a] == prev[e];
                assert(comps[i][a] == cur[e]);
            } else {
                assert(cur == prev + c);
                assert(cur[e] == c[e - prev.len()]);
                assert(comps[n - 1][e - prev.len()] == cur[e]);
            }
        }
    }
}

/// Law: removing small road components during level cleanup changes only
/// interior road cells, and on a raster of known codes turns no cell into a
/// road.
pub proof fn lemma_small_road_removal_changes_only_interior_roads(cells: Seq<u8>, side: int, max: nat)
    requires
        grid_ok(cells, side),
        cells.len() <= usize::MAX,
    ensures
        small_roads_removed(cells, side, max).len() == cells.len(),
        forall|k: int| 0 <= k < cells.len() && #[trigger] small_roads_removed(cells, side, max)[k] != cells[k] ==> interior_road(cells, side, k),
        known_codes(cells) ==> forall|k: int| 0 <= k < cells.len() && #[trigger] small_roads_removed(cells, side, max)[k] == ROAD_CODE ==> cells[k] == ROAD_CODE,
{
    let comps = components(cells, side, ROAD_CODE);
    lemma_components_partition(cells, side, ROAD_CODE);
    let list = small_interior_cells(comps, side, max, comps.len());
    lemma_small_interior_cells(comps, side, max, comps.len());
    assert forall|e: int| 0 <= e < list.len() implies (#[trigger] list[e]) < cells.len() by {
        assert(in_inner_component(comps, side, comps.len(), list[e]));
        let (i, a) = choose|i: int, a: int| 0 <= i < comps.len() && 0 <= a < comps[i].len() && !touches_boundary(comps[i], side) && #[trigger] comps[i][a] == list[e];
        assert(comps[i][a] < cells.len());
    }
    lemma_replace_all_changes(cells, side, list);
    assert forall|k: int| 0 <= k < cells.len() && #[trigger] small_roads_removed(cells, side, max)[k] != cells[k] implies interior_road(cells, side, k) by {
        let e = choose|e: int| 0 <= e < list.len() && list[e] == k as usize;
        assert(in_inner_component(comps, side, comps.len(), list[e]));
        let (i, a) = choose|i: int, a: int| 0 <= i < comps.len() && 0 <= a < comps[i].len() && !touches_boundary(comps[i], side) && #[trigger] comps[i][a] == list[e];
        assert(comps[i][a] < cells.len() && cells[comps[i][a] as int] == ROAD_CODE);
        lemma_inner_component_cell(comps[i], side, a);
    }
}

/// Law: turning road islands into grass during refinement changes only
/// interior road cells, and turns no cell into a road.
pub proof fn lemma_island_removal_changes_only_interior_roads(cells: Seq<u8>, side: int, max: nat)
    requires
        grid_ok(cells, side),
        cells.len() <= usize::MAX,
    ensures
        islands_to_grass(cells, side, max).len() == cells.len(),
        forall|k: int| 0 <= k < cells.len() && #[trigger] islands_to_grass(cells, side, max)[k] != cells[k] ==> interior_road(cells, side, k),
        forall|k: int| 0 <= k < cells.len() && #[trigger] islands_to_grass(cells, side, max)[k] == ROAD_CODE ==> cells[k] == ROAD_CODE,
{
    let comps = components(cells, side, ROAD_CODE);
    lemma_components_partition(cells, side, ROAD_CODE);
    assert forall|k: int| 0 <= k < cells.len() && #[trigger] islands_to_grass(cells, side, max)[k] != cells[k] implies interior_road(cells, side, k) by {
        assert(in_road_island(comps, side, max, k));
        let i = choose|i: int| 0 <= i < comps.len() && !touches_boundary(comps[i], side) && comps[i].len() <= max && #[trigger] comps[i].contains(k as usize);
        let a = choose|a: int| 0 <= a < comps[i].len() && comps[i][a] == k as usize;
        assert(comps[i][a] < cells.len() && cells[comps[i][a] as int] == ROAD_CODE);
        lemma_inner_component_cell(comps[i], side, a);
    }
}


/// Every listed cell holds no road once the list is rewritten, on a raster of
/// known codes.
proof fn lemma_replace_all_listed(cells: Seq<u8>, side: int, list: Seq<usize>)
    requires
        grid_ok(cells, side),
        known_codes(cells),
        forall|i: int| 0 <= i < list.len() ==> (#[trigger] list[i]) < cells.len(),
    ensures
        forall|i: int| 0 <= i < list.len() ==> replace_all(cells, side, list)[#[trigger] list[i] as int] != ROAD_CODE,
    decreases list.len(),
{
    if list.len() > 0 {
        let pre = list.drop_last();
        lemma_replace_all_listed(cells, side, pre);
        lemma_replace_all_changes(cells, side, pre);
        let c = replace_all(cells, side, pre);
        let k0 = list.last() as int;
        lemma_dominant_not_road(c, side, col_of(k0, side), row_of(k0, side));
        let r = replace_all(cells, side, list);
        assert forall|i: int| 0 <= i < list.len() implies r[#[trigger] list[i] as int] != ROAD_CODE by {
            if list[i] as int != k0 {
                assert(list[i] == pre[i]);
                assert(c[pre[i] as int] != ROAD_CODE);
            }
        }
    }
}

/// A road cell off the boundary with no road edge neighbour.
pub open spec fn lone_road(cells: Seq<u8>, side: int, k: int) -> bool {
    weak_road_pred(cells, side)(k)
}

/// The cleanup rounds from the second on change nothing once the first left
/// no road.
proof fn lemma_rounds_after_first(cells: Seq<u8>, side: int, n: nat)
    requires
        n >= 1,
        grid_ok(cleanup_round(cells, side), side),
        no_road(cleanup_round(cells, side)),
    ensures
        cleanup_rounds(cells, side, n) == cleanup_round(cells, side),
    decreases n,
{
    if n == 1 {
        assert(cleanup_rounds(cells, side, 0) == cells);
    } else {
        lemma_rounds_after_first(cells, side, (n - 1) as nat);
        lemma_round_keeps_roadless(cleanup_round(cells, side), side);
    }
}

/// Law: at the three coarsest zooms (0, 1 and 2) the road cleanup of a
/// raster at least three cells wide, whose codes are all known and whose
/// roads are all lone cells off the boundary, leaves no road at all.
pub proof fn lemma_coarse_cleanup_clears_lone_roads(cells: Seq<u8>, side: int, zoom: u8)
    requires
        grid_ok(cells, side),
        cells.len() <= usize::MAX,
        side >= 3,
        zoom <= 2,
        known_codes(cells),
        forall|k: int| 0 <= k < cells.len() && cells[k] == ROAD_CODE ==> #[trigger] lone_road(cells, side, k),
    ensures
        no_road(low_lod_cleaned(cells, side, zoom)),
{
    let n = cells.len();
    assert forall|k: int| 0 <= k < n implies !#[trigger] dense_road_pred(cells, side)(k) by {
        if cells[k] == ROAD_CODE {
            assert(lone_road(cells, side, k));
        }
    }
    lemma_scan_filter_none(dense_road_pred(cells, side), n);
    assert(eroded(cells, side) == cells);
    let list = scan_filter(weak_road_pred(cells, side), n);
    lemma_scan_filter_bounds(weak_road_pred(cells, side), n);
    lemma_replace_all_changes(cells, side, list);
    lemma_replace_all_listed(cells, side, list);
    let w = weak_removed(cells, side);
    assert(w == replace_all(cells, side, list));
    assert(no_road(w)) by {
        assert forall|k: int| 0 <= k < w.len() implies #[trigger] w[k] != ROAD_CODE by {
            if w[k] == ROAD_CODE {
                assert(cells[k] == ROAD_CODE);
                assert(lone_road(cells, side, k));
                lemma_scan_filter_contains(weak_road_pred(cells, side), n, k);
                let i = choose|i: int| 0 <= i < list.len() && list[i] == k as usize;
                assert(list[i] as int == k);
            }
        }
    }
    assert forall|k: int| 0 <= k < w.len() implies !#[trigger] gap_pred(w, side, ROAD_CODE)(k) by {
        let x = col_of(k, side);
        let y = row_of(k, side);
        lemma_no_road_has_code(w, side, x, y - 1);
        lemma_no_road_has_code(w, side, x - 1, y);
    }
    assert(bridged(w, side, ROAD_CODE) =~= w);
    assert(cleanup_round(cells, side) == w);
    let rounds: nat = if zoom == 0 { 3 } else if zoom == 1 { 2 } else { 1 };
    let max_component: nat = if zoom == 0 { 8 } else if zoom == 1 { 7 } else { 6 };
    let max_stub: nat = if zoom == 0 { 6 } else if zoom == 1 { 5 } else { 4 };
    lemma_rounds_after_first(cells, side, rounds);
    lemma_scan_components_none(w, side, w.len());
    assert(small_interior_cells(components(w, side, ROAD_CODE), side, max_component, 0) == Seq::<usize>::empty());
    assert(small_roads_removed(w, side, max_component) == w);
    lemma_stub_mask_none(w, side, max_stub, w.len());
    lemma_scan_filter_none(flagged(stub_mask(w, side, max_stub, w.len())), w.len());
    assert(stubs_trimmed(w, side, max_stub) == w);
    assert(low_lod_cleaned(cells, side, zoom) == w);
}

/// Law: above zoom 2, and on rasters under three cells wide, the road
/// cleanup leaves the raster as it is.
pub proof fn lemma_fine_levels_not_cleaned(cells: Seq<u8>, side: int, zoom: u8)
    requires
        zoom > 2 || side < 3,
    ensures
        low_lod_cleaned(cells, side, zoom) == cells,
{
}

} // verus!
