//! Repair of a playable raster chunk after rasterizing: roads are joined
//! across single-cell gaps and stripped of stubs and islands, river-like
//! water is made continuous, and roads squeezed between water become water.
use vstd::prelude::*;
use crate::cells::{
    cardinal_code_count, cardinal_count, cell_index, col_of, diagonal_code_count, diagonal_count,
    grid_ok, has_code, lemma_pos_of_index, pos, road_neighbor_count, row_of, water_neighbor_count,
    GRASS_CODE, ROAD_CODE, WATER_CODE,
};
use crate::components::{component_touches_boundary, components, find_components, touches_boundary};
use crate::passes::{bridge_gaps_once, bridged, gap_pred, lemma_side_pos};
use crate::stubs::{dangling_stub_mask, lemma_stub_mask_len, stub_mask};

verus! {

/// Row-major index of cell (x, y) of a chunk raster `side` cells wide.
pub fn index(x: usize, y: usize, side: usize) -> (i: usize)
    requires
        y * side + x <= usize::MAX,
    ensures
        i == pos(x as int, y as int, side as int),
{
    cell_index(x, y, side)
}

/// `passes` rounds of gap bridging for `code`.
pub open spec fn bridged_times(cells: Seq<u8>, side: int, code: u8, passes: nat) -> Seq<u8>
    decreases passes,
{
    if passes == 0 {
        cells
    } else {
        bridged(bridged_times(cells, side, code, (passes - 1) as nat), side, code)
    }
}

/// Joins cells of `code` across single-cell gaps, `passes` times (stopping
/// early once a pass changes nothing).
pub fn bridge_cardinal_gaps(cells: &mut Vec<u8>, side: usize, code: u8, passes: usize)
    requires
        grid_ok(old(cells)@, side as int),
    ensures
        final(cells)@ == bridged_times(old(cells)@, side as int, code, passes as nat),
        final(cells)@.len() == old(cells)@.len(),
{
    let ghost start = cells@;
    let mut pass: usize = 0;
    while pass < passes
        invariant
            0 <= pass <= passes,
            grid_ok(start, side as int),
            cells@.len() == start.len(),
            cells@ == bridged_times(start, side as int, code, pass as nat),
        decreases passes - pass,
    {
        bridge_gaps_once(cells, side, code);
        pass = pass + 1;
    }
}

/// The raster with the cells of every removable stub turned to grass.
pub open spec fn stubs_to_grass(cells: Seq<u8>, side: int, max: nat) -> Seq<u8> {
    let mask = stub_mask(cells, side, max, cells.len());
    Seq::new(cells.len(), |k: int| if mask[k] { GRASS_CODE } else { cells[k] })
}

/// Turns short dangling road stubs into grass (see `stub_mask`).
pub fn trim_short_dangling_roads(cells: &mut Vec<u8>, side: usize, max_stub_len: usize)
    requires
        grid_ok(old(cells)@, side as int),
    ensures
        final(cells)@ == stubs_to_grass(old(cells)@, side as int, max_stub_len as nat),
        final(cells)@.len() == old(cells)@.len(),
{
    let ghost start = cells@;
    let mask = dangling_stub_mask(cells, side, max_stub_len);
    proof {
        lemma_stub_mask_len(start, side as int, max_stub_len as nat, start.len());
    }
    let n = cells.len();
    let mut k: usize = 0;
    while k < n
        invariant
            0 <= k <= n,
            n == start.len(),
            mask@.len() == n,
            mask@ == stub_mask(start, side as int, max_stub_len as nat, start.len()),
            cells@.len() == n,
            forall|j: int| 0 <= j < n ==> #[trigger] cells@[j] == if j < k && mask@[j] { GRASS_CODE } else { start[j] },
        decreases n - k,
    {
        if mask[k] {
            cells.set(k, GRASS_CODE);
        }
        k = k + 1;
    }
    assert(cells@ =~= stubs_to_grass(start, side as int, max_stub_len as nat));
}

/// Some small road component away from the boundary contains cell `k`.
pub open spec fn in_road_island(comps: Seq<Seq<usize>>, side: int, max: nat, k: int) -> bool {
    exists|i: int| 0 <= i < comps.len() && !touches_boundary(comps[i], side) && comps[i].len() <= max && #[trigger] comps[i].contains(k as usize)
}

/// The raster with every road component of at most `max` cells that does not
/// touch the boundary turned to grass.
pub open spec fn islands_to_grass(cells: Seq<u8>, side: int, max: nat) -> Seq<u8> {
    let comps = components(cells, side, ROAD_CODE);
    Seq::new(cells.len(), |k: int| if in_road_island(comps, side, max, k) { GRASS_CODE } else { cells[k] })
}

/// Turns small road components that do not touch the boundary into grass.
pub fn remove_road_islands(cells: &mut Vec<u8>, side: usize, max_island_cells: usize)
    requires
        grid_ok(old(cells)@, side as int),
    ensures
        final(cells)@ == islands_to_grass(old(cells)@, side as int, max_island_cells as nat),
        final(cells)@.len() == old(cells)@.len(),
{
    let ghost start = cells@;
    let comps = find_components(cells, side, ROAD_CODE);
    let ghost sc = components(start, side as int, ROAD_CODE);
    let n = cells.len();
    let mut i: usize = 0;
    while i < comps.len()
        invariant
            0 <= i <= comps@.len(),
            n == start.len(),
            grid_ok(start, side as int),
            comps@.len() == sc.len(),
            forall|a: int| 0 <= a < comps@.len() ==> #[trigger] comps@[a]@ == sc[a],
            forall|a: int, b: int| 0 <= a < comps@.len() && 0 <= b < comps@[a]@.len() ==> comps@[a]@[b] < n,
            cells@.len() == n,
            forall|k: int| 0 <= k < n ==> #[trigger] cells@[k] == if in_road_island(sc.take(i as int), side as int, max_island_cells as nat, k) { GRASS_CODE } else { start[k] },
        decreases comps@.len() - i,
    {
        let comp = &comps[i];
        assert(comp@ == sc[i as int]);
        if comp.len() > 0 {
            proof {
                lemma_side_pos(n as int, side as int, comp@[0] as int);
            }
        }
        let small = comp.len() <= max_island_cells && (comp.len() == 0 || !component_touches_boundary(comp, side));
        if comp.len() == 0 {
            assert(!touches_boundary(comp@, side as int));
        }
        let ghost before = cells@;
        if small {
            let mut j: usize = 0;
            while j < comp.len()
                invariant
                    0 <= j <= comp@.len(),
                    forall|b: int| 0 <= b < comp@.len() ==> comp@[b] < n,
                    cells@.len() == n,
                    forall|k: int| 0 <= k < n ==> #[trigger] cells@[k] == if comp@.take(j as int).contains(k as usize) { GRASS_CODE } else { before[k] },
                decreases comp@.len() - j,
            {
                let p = comp[j];
                cells.set(p, GRASS_CODE);
                proof {
                    assert(comp@.take(j + 1) =~= comp@.take(j as int).push(p));
                    assert forall|k: int| 0 <= k < n implies #[trigger] cells@[k] == if comp@.take(j + 1).contains(k as usize) { GRASS_CODE } else { before[k] } by {
                        if k == p as int {
                            assert(comp@.take(j + 1)[j as int] == p);
                        } else {
                            if comp@.take(j + 1).contains(k as usize) {
                                let t = choose|t: int| 0 <= t < comp@.take(j + 1).len() && #[trigger] comp@.take(j + 1)[t] == k as usize;
                                assert(t < j);
                                assert(comp@.take(j as int)[t] == k as usize);
                            }
                            if comp@.take(j as int).contains(k as usize) {
                                let t = choose|t: int| 0 <= t < comp@.take(j as int).len() && #[trigger] comp@.take(j as int)[t] == k as usize;
                                assert(comp@.take(j + 1)[t] == k as usize);
                            }
                        }
                    }
                }
                j = j + 1;
            }
            proof {
                assert(comp@.take(comp@.len() as int) =~= comp@);
            }
        }
        proof {
            assert forall|k: int| 0 <= k < n implies #[trigger] cells@[k] == if in_road_island(sc.take(i + 1), side as int, max_island_cells as nat, k) { GRASS_CODE } else { start[k] } by {
                let now = in_road_island(sc.take(i + 1), side as int, max_island_cells as nat, k);
                let prev = in_road_island(sc.take(i as int), side as int, max_island_cells as nat, k);
                let here = !touches_boundary(sc[i as int], side as int) && sc[i as int].len() <= max_island_cells && sc[i as int].contains(k as usize);
                if prev {
                    let a = choose|a: int| 0 <= a < sc.take(i as int).len() && !touches_boundary(sc.take(i as int)[a], side as int) && sc.take(i as int)[a].len() <= max_island_cells && #[trigger] sc.take(i as int)[a].contains(k as usize);
                    assert(sc.take(i + 1)[a] == sc.take(i as int)[a]);
                }
                if here {
                    assert(sc.take(i + 1)[i as int] == sc[i as int]);
                }
                if now {
                    let a = choose|a: int| 0 <= a < sc.take(i + 1).len() && !touches_boundary(sc.take(i + 1)[a], side as int) && sc.take(i + 1)[a].len() <= max_island_cells && #[trigger] sc.take(i + 1)[a].contains(k as usize);
                    if a < i {
                        assert(sc.take(i as int)[a] == sc.take(i + 1)[a]);
                    }
                }
            }
        }
        i = i + 1;
    }
    proof {
        assert(sc.take(sc.len() as int) =~= sc);
    }
    assert(cells@ =~= islands_to_grass(start, side as int, max_island_cells as nat));
}

/// Interior cell that is neither water nor road and is mostly surrounded by
/// water: opposite water edge neighbours, three water edge neighbours, or two
/// water edge neighbours and two water corner neighbours.
pub open spec fn river_gap_pred(cells: Seq<u8>, side: int) -> spec_fn(int) -> bool {
    |k: int|
        {
            let x = col_of(k, side);
            let y = row_of(k, side);
            let card = cardinal_count(cells, side, x, y, WATER_CODE);
            let diag = diagonal_count(cells, side, x, y, WATER_CODE);
            &&& 1 <= x && x + 1 < side && 1 <= y && y + 1 < side
            &&& cells[k] != WATER_CODE && cells[k] != ROAD_CODE
            &&& ((has_code(cells, side, x, y - 1, WATER_CODE) && has_code(cells, side, x, y + 1, WATER_CODE))
                || (has_code(cells, side, x - 1, y, WATER_CODE) && has_code(cells, side, x + 1, y, WATER_CODE))
                || card >= 3 || (card >= 2 && diag >= 2))
        }
}

/// One river-gap pass over the raster as it stood before the pass.
pub open spec fn river_filled(cells: Seq<u8>, side: int) -> Seq<u8> {
    Seq::new(cells.len(), |k: int| if river_gap_pred(cells, side)(k) { WATER_CODE } else { cells[k] })
}

pub open spec fn river_filled_times(cells: Seq<u8>, side: int, passes: nat) -> Seq<u8>
    decreases passes,
{
    if passes == 0 {
        cells
    } else {
        river_filled(river_filled_times(cells, side, (passes - 1) as nat), side)
    }
}

/// One river-gap pass.
fn fill_river_gaps_once(cells: &mut Vec<u8>, side: usize)
    requires
        grid_ok(old(cells)@, side as int),
    ensures
        final(cells)@ == river_filled(old(cells)@, side as int),
        final(cells)@.len() == old(cells)@.len(),
{
    let ghost start = cells@;
    let n = cells.len();
    let mut out: Vec<u8> = Vec::new();
    let mut k: usize = 0;
    while k < n
        invariant
            0 <= k <= n,
            n == start.len(),
            cells@ == start,
            grid_ok(start, side as int),
            out@ =~= Seq::new(k as nat, |j: int| if river_gap_pred(start, side as int)(j) { WATER_CODE } else { start[j] }),
        decreases n - k,
    {
        proof {
            lemma_side_pos(n as int, side as int, k as int);
            lemma_pos_of_index(k as int, side as int);
        }
        let x = k % side;
        let y = k / side;
        let mut fill = false;
        if x >= 1 && x + 1 < side && y >= 1 && y + 1 < side && cells[k] != WATER_CODE && cells[k] != ROAD_CODE {
            let card = cardinal_code_count(cells, side, x, y, WATER_CODE);
            let diag = diagonal_code_count(cells, side, x, y, WATER_CODE);
            let up = y >= 1 && card_has(cells, side, x, y - 1);
            let down = card_has(cells, side, x, y + 1);
            let left = x >= 1 && card_has(cells, side, x - 1, y);
            let right = card_has(cells, side, x + 1, y);
            fill = (up && down) || (left && right) || card >= 3 || (card >= 2 && diag >= 2);
        }
        out.push(if fill { WATER_CODE } else { cells[k] });
        k = k + 1;
    }
    *cells = out;
}

fn card_has(cells: &Vec<u8>, side: usize, x: usize, y: usize) -> (b: bool)
    requires
        grid_ok(cells@, side as int),
    ensures
        b == has_code(cells@, side as int, x as int, y as int, WATER_CODE),
{
    if x < side && y < side {
        let n = cells.len();
        proof {
            crate::cells::lemma_pos_in_range(x as int, y as int, side as int);
        }
        cells[y * side + x] == WATER_CODE
    } else {
        false
    }
}

/// Fills gaps in river-like water, `passes` times (stopping early once a pass
/// changes nothing).
pub fn fill_river_gaps(cells: &mut Vec<u8>, side: usize, passes: usize)
    requires
        grid_ok(old(cells)@, side as int),
    ensures
        final(cells)@ == river_filled_times(old(cells)@, side as int, passes as nat),
        final(cells)@.len() == old(cells)@.len(),
{
    let ghost start = cells@;
    let mut pass: usize = 0;
    while pass < passes
        invariant
            0 <= pass <= passes,
            grid_ok(start, side as int),
            cells@.len() == start.len(),
            cells@ == river_filled_times(start, side as int, pass as nat),
        decreases passes - pass,
    {
        fill_river_gaps_once(cells, side);
        pass = pass + 1;
    }
}

/// Road cells with three or more water edge neighbours become water, in
/// row-major order over the first `n` cells, each seeing the changes before it.
pub open spec fn roads_to_water(cells: Seq<u8>, side: int, n: nat) -> Seq<u8>
    decreases n,
{
    if n == 0 {
        cells
    } else {
        let c = roads_to_water(cells, side, (n - 1) as nat);
        let k = n - 1;
        if c[k] == ROAD_CODE && cardinal_count(c, side, col_of(k, side), row_of(k, side), WATER_CODE) >= 3 {
            c.update(k, WATER_CODE)
        } else {
            c
        }
    }
}

pub proof fn lemma_roads_to_water_len(cells: Seq<u8>, side: int, n: nat)
    requires
        n <= cells.len(),
    ensures
        roads_to_water(cells, side, n).len() == cells.len(),
    decreases n,
{
    if n > 0 {
        lemma_roads_to_water_len(cells, side, (n - 1) as nat);
    }
}


/// Extent of the first `n` cells of a component: (min x, min y, max x, max y).
pub open spec fn extent(comp: Seq<usize>, side: int, n: nat) -> (int, int, int, int)
    decreases n,
{
    let x = col_of(comp[n - 1] as int, side);
    let y = row_of(comp[n - 1] as int, side);
    if n <= 1 {
        (x, y, x, y)
    } else {
        let e = extent(comp, side, (n - 1) as nat);
        (if x < e.0 { x } else { e.0 }, if y < e.1 { y } else { e.1 }, if x > e.2 { x } else { e.2 }, if y > e.3 { y } else { e.3 })
    }
}

/// Size, bounding box and boundary contact of one water component.
#[derive(Clone, Copy, PartialEq, Eq, Structural, Debug)]
pub struct WaterComponentStats {
    pub size: usize,
    pub min_x: usize,
    pub min_y: usize,
    pub max_x: usize,
    pub max_y: usize,
    pub touches_boundary: bool,
}

pub open spec fn stats_match(st: WaterComponentStats, comp: Seq<usize>, side: int) -> bool {
    let e = extent(comp, side, comp.len());
    &&& st.size == comp.len()
    &&& st.min_x == e.0
    &&& st.min_y == e.1
    &&& st.max_x == e.2
    &&& st.max_y == e.3
    &&& st.touches_boundary == touches_boundary(comp, side)
}

/// A water component looks like a river: large, or long and thin (its longer
/// side at least 2.3 times its shorter side), or medium and at the boundary.
pub open spec fn river_like(st: WaterComponentStats) -> bool {
    let width = st.max_x - st.min_x + 1;
    let height = st.max_y - st.min_y + 1;
    let major = if width > height { width } else { height };
    let minor0 = if width < height { width } else { height };
    let minor = if minor0 < 1 { 1 } else { minor0 };
    st.size >= 48 || (st.size >= 20 && 10 * major >= 23 * minor) || (st.size >= 24 && st.touches_boundary)
}

/// Statistics of every water component, in the order of `components`.
pub fn collect_water_components(cells: &Vec<u8>, side: usize) -> (stats: Vec<WaterComponentStats>)
    requires
        grid_ok(cells@, side as int),
    ensures
        stats@.len() == components(cells@, side as int, WATER_CODE).len(),
        forall|i: int| 0 <= i < stats@.len() ==> stats_match(#[trigger] stats@[i], components(cells@, side as int, WATER_CODE)[i], side as int),
{
    let comps = find_components(cells, side, WATER_CODE);
    let ghost sc = components(cells@, side as int, WATER_CODE);
    let n = cells.len();
    let mut stats: Vec<WaterComponentStats> = Vec::new();
    let mut i: usize = 0;
    while i < comps.len()
        invariant
            0 <= i <= comps@.len(),
            grid_ok(cells@, side as int),
            n == cells@.len(),
            comps@.len() == sc.len(),
            forall|a: int| 0 <= a < comps@.len() ==> #[trigger] comps@[a]@ == sc[a],
            forall|a: int, b: int| 0 <= a < comps@.len() && 0 <= b < comps@[a]@.len() ==> comps@[a]@[b] < n,
            stats@.len() == i,
            sc == components(cells@, side as int, WATER_CODE),
            forall|a: int| 0 <= a < i ==> stats_match(#[trigger] stats@[a], sc[a], side as int),
        decreases comps@.len() - i,
    {
        let comp = &comps[i];
        assert(comp@ == sc[i as int]);
        if comp.len() > 0 {
            proof {
                lemma_side_pos(n as int, side as int, comp@[0] as int);
            }
            let st = component_stats(comp, side);
            stats.push(st);
        } else {
            proof {
                lemma_components_nonempty(cells@, side as int, WATER_CODE, i as int);
            }
        }
        i = i + 1;
    }
    stats
}

/// Components found by the search are never empty.
pub proof fn lemma_components_nonempty(cells: Seq<u8>, side: int, code: u8, i: int)
    requires
        0 <= i < components(cells, side, code).len(),
    ensures
        components(cells, side, code)[i].len() > 0,
{
    lemma_scan_components_nonempty(cells, side, code, cells.len(), i);
}

proof fn lemma_scan_components_nonempty(cells: Seq<u8>, side: int, code: u8, n: nat, i: int)
    requires
        0 <= i < crate::components::scan_components(cells, side, code, n).1.len(),
    ensures
        crate::components::scan_components(cells, side, code, n).1[i].len() > 0,
    decreases n,
{
    if n > 0 {
        let prev = crate::components::scan_components(cells, side, code, (n - 1) as nat);
        if i < prev.1.len() {
            lemma_scan_components_nonempty(cells, side, code, (n - 1) as nat, i);
        } else {
            let r = n - 1;
            lemma_bfs_grows(cells, side, code, prev.0.update(r, true), seq![r as usize], Seq::empty());
        }
    }
}

/// The search puts its first queued cell into the component.
proof fn lemma_bfs_grows(cells: Seq<u8>, side: int, code: u8, visited: Seq<bool>, queue: Seq<usize>, comp: Seq<usize>)
    ensures
        crate::components::bfs(cells, side, code, visited, queue, comp).1.len() >= comp.len() + (if queue.len() > 0 { 1int } else { 0 }),
    decreases crate::components::measure((visited, queue)),
{
    if queue.len() > 0 {
        let p = queue[0];
        let st = crate::components::expand(cells, side, code, (visited, queue.drop_first()), p as int);
        crate::components::lemma_expand_measure(cells, side, code, (visited, queue.drop_first()), p as int);
        lemma_bfs_grows(cells, side, code, st.0, st.1, comp.push(p));
    }
}

/// Statistics of a nonempty component.
fn component_stats(comp: &Vec<usize>, side: usize) -> (st: WaterComponentStats)
    requires
        comp@.len() > 0,
        side > 0,
        forall|b: int| 0 <= b < comp@.len() ==> comp@[b] < side * side,
    ensures
        stats_match(st, comp@, side as int),
{
    let first = comp[0];
    proof {
        lemma_pos_of_index(first as int, side as int);
    }
    let mut min_x = first % side;
    let mut min_y = first / side;
    let mut max_x = min_x;
    let mut max_y = min_y;
    let mut i: usize = 1;
    while i < comp.len()
        invariant
            1 <= i <= comp@.len(),
            side > 0,
            forall|b: int| 0 <= b < comp@.len() ==> comp@[b] < side * side,
            (min_x as int, min_y as int, max_x as int, max_y as int) == extent(comp@, side as int, i as nat),
        decreases comp@.len() - i,
    {
        let k = comp[i];
        proof {
            lemma_pos_of_index(k as int, side as int);
        }
        let x = k % side;
        let y = k / side;
        if x < min_x {
            min_x = x;
        }
        if y < min_y {
            min_y = y;
        }
        if x > max_x {
            max_x = x;
        }
        if y > max_y {
            max_y = y;
        }
        i = i + 1;
    }
    let touches = component_touches_boundary(comp, side);
    WaterComponentStats { size: comp.len(), min_x, min_y, max_x, max_y, touches_boundary: touches }
}

/// The component statistics satisfy the river test.
fn is_river_like(st: &WaterComponentStats) -> (b: bool)
    requires
        st.min_x <= st.max_x,
        st.min_y <= st.max_y,
    ensures
        b == river_like(*st),
{
    let width = (st.max_x - st.min_x) as u128 + 1;
    let height = (st.max_y - st.min_y) as u128 + 1;
    let major = if width > height { width } else { height };
    let minor0 = if width < height { width } else { height };
    let minor = if minor0 < 1 { 1 } else { minor0 };
    let elongated = 10 * major >= 23 * minor;
    st.size >= 48 || (st.size >= 20 && elongated) || (st.size >= 24 && st.touches_boundary)
}

pub proof fn lemma_extent_ordered(comp: Seq<usize>, side: int, n: nat)
    requires
        1 <= n <= comp.len(),
    ensures
        extent(comp, side, n).0 <= extent(comp, side, n).2,
        extent(comp, side, n).1 <= extent(comp, side, n).3,
    decreases n,
{
    if n > 1 {
        lemma_extent_ordered(comp, side, (n - 1) as nat);
    }
}

/// Some water component of the raster looks like a river.
pub open spec fn has_river(cells: Seq<u8>, side: int) -> bool {
    exists|i: int| 0 <= i < components(cells, side, WATER_CODE).len() && #[trigger] river_like_comp(components(cells, side, WATER_CODE)[i], side)
}

pub open spec fn river_like_comp(comp: Seq<usize>, side: int) -> bool {
    let e = extent(comp, side, comp.len());
    river_like(WaterComponentStats {
        size: comp.len() as usize,
        min_x: e.0 as usize,
        min_y: e.1 as usize,
        max_x: e.2 as usize,
        max_y: e.3 as usize,
        touches_boundary: touches_boundary(comp, side),
    })
}

/// Some water component of the raster looks like a river (see `river_like`).
pub fn has_river_like_water(cells: &Vec<u8>, side: usize) -> (b: bool)
    requires
        grid_ok(cells@, side as int),
    ensures
        b == has_river(cells@, side as int),
{
    let stats = collect_water_components(cells, side);
    let ghost sc = components(cells@, side as int, WATER_CODE);
    let mut i: usize = 0;
    while i < stats.len()
        invariant
            0 <= i <= stats@.len(),
            stats@.len() == sc.len(),
            sc == components(cells@, side as int, WATER_CODE),
            forall|a: int| 0 <= a < stats@.len() ==> stats_match(#[trigger] stats@[a], sc[a], side as int),
            forall|a: int| 0 <= a < i ==> !river_like_comp(#[trigger] sc[a], side as int),
        decreases stats@.len() - i,
    {
        let st = &stats[i];
        proof {
            lemma_components_nonempty(cells@, side as int, WATER_CODE, i as int);
            lemma_extent_ordered(sc[i as int], side as int, sc[i as int].len());
            assert(stats_match(stats@[i as int], sc[i as int], side as int));
            assert(*st == WaterComponentStats {
                size: sc[i as int].len() as usize,
                min_x: extent(sc[i as int], side as int, sc[i as int].len()).0 as usize,
                min_y: extent(sc[i as int], side as int, sc[i as int].len()).1 as usize,
                max_x: extent(sc[i as int], side as int, sc[i as int].len()).2 as usize,
                max_y: extent(sc[i as int], side as int, sc[i as int].len()).3 as usize,
                touches_boundary: touches_boundary(sc[i as int], side as int),
            });
        }
        if is_river_like(st) {
            assert(river_like_comp(sc[i as int], side as int));
            return true;
        }
        i = i + 1;
    }
    false
}

/// Number of cells among the first `n` that hold `code`.
pub open spec fn count_code(cells: Seq<u8>, code: u8, n: nat) -> nat
    decreases n,
{
    if n == 0 {
        0
    } else {
        count_code(cells, code, (n - 1) as nat) + if cells[n - 1] == code { 1nat } else { 0nat }
    }
}

/// The repaired chunk: nothing changes unless the raster is at least three
/// cells wide and holds exactly `side * side` cells; then road gaps are
/// bridged once, road stubs of at most 4 cells and road islands of at most 6
/// cells become grass; when some water looks like a river or water covers
/// more than `max(len / 16, 8)` cells, water gaps are bridged and river gaps
/// filled once; finally road cells with three or more water edge neighbours
/// become water.
pub open spec fn refined(cells: Seq<u8>, side: int) -> Seq<u8> {
    if side < 3 || cells.len() != side * side {
        cells
    } else {
        let c1 = bridged_times(cells, side, ROAD_CODE, 1);
        let c2 = stubs_to_grass(c1, side, 4);
        let c3 = islands_to_grass(c2, side, 6);
        let water = count_code(c3, WATER_CODE, c3.len());
        let limit = if c3.len() / 16 > 8 { c3.len() / 16 } else { 8 };
        let c4 = if has_river(c3, side) || water > limit {
            river_filled_times(bridged_times(c3, side, WATER_CODE, 1), side, 1)
        } else {
            c3
        };
        roads_to_water(c4, side, c4.len())
    }
}

/// Repairs a rasterized chunk (see `refined`).
pub fn refine_chunk_cells(cells: &mut Vec<u8>, cells_per_side: usize)
    ensures
        final(cells)@ == refined(old(cells)@, cells_per_side as int),
        final(cells)@.len() == old(cells)@.len(),
{
    let side = cells_per_side;
    let len = cells.len();
    if side < 3 {
        return;
    }
    match side.checked_mul(side) {
        None => {
            return;
        },
        Some(n) => {
            if cells.len() != n {
                return;
            }
        },
    }
    bridge_cardinal_gaps(cells, side, ROAD_CODE, 1);
    trim_short_dangling_roads(cells, side, 4);
    remove_road_islands(cells, side, 6);
    let n = cells.len();
    let mut water_before: usize = 0;
    let mut k: usize = 0;
    while k < n
        invariant
            0 <= k <= n,
            n == cells@.len(),
            water_before == count_code(cells@, WATER_CODE, k as nat),
            water_before <= k,
        decreases n - k,
    {
        if cells[k] == WATER_CODE {
            water_before = water_before + 1;
        }
        k = k + 1;
    }
    let limit = if n / 16 > 8 { n / 16 } else { 8 };
    if has_river_like_water(cells, side) || water_before > limit {
        bridge_cardinal_gaps(cells, side, WATER_CODE, 1);
        fill_river_gaps(cells, side, 1);
    }
    let ghost c4 = cells@;
    let mut k: usize = 0;
    while k < n
        invariant
            0 <= k <= n,
            n == c4.len(),
            grid_ok(c4, side as int),
            cells@ == roads_to_water(c4, side as int, k as nat),
            cells@.len() == n,
        decreases n - k,
    {
        proof {
            lemma_side_pos(n as int, side as int, k as int);
            lemma_pos_of_index(k as int, side as int);
        }
        let x = k % side;
        let y = k / side;
        if cells[k] == ROAD_CODE && water_neighbor_count(cells, side, x, y) >= 3 {
            cells.set(k, WATER_CODE);
        }
        k = k + 1;
    }
}

} // verus!

verus! {

/// The chunk after the road steps of the repair: road gaps bridged once, then
/// road stubs of at most 4 cells and road islands of at most 6 cells turned
/// to grass.
pub open spec fn road_repaired(cells: Seq<u8>, side: int) -> Seq<u8> {
    islands_to_grass(stubs_to_grass(bridged_times(cells, side, ROAD_CODE, 1), side, 4), side, 6)
}

/// More water than this many cells in a chunk of `len` cells is plentiful:
/// `max(len / 16, 8)`.
pub open spec fn water_limit(len: nat) -> nat {
    if len / 16 > 8 {
        len / 16
    } else {
        8
    }
}

proof fn lemma_roads_to_water_keeps_water(cells: Seq<u8>, side: int, n: nat, k: int)
    requires
        n <= cells.len(),
        0 <= k < cells.len(),
        cells[k] == WATER_CODE,
    ensures
        roads_to_water(cells, side, n)[k] == WATER_CODE,
    decreases n,
{
    lemma_roads_to_water_len(cells, side, n);
    if n > 0 {
        lemma_roads_to_water_keeps_water(cells, side, (n - 1) as nat, k);
        lemma_roads_to_water_len(cells, side, (n - 1) as nat);
    }
}

/// Law: when the chunk, once its roads are repaired, holds more water than
/// `max(len / 16, 8)` cells, or holds water that looks like a river (either
/// suffices), every interior cell squeezed between two water cells (left and
/// right, or above and below) ends up water.
pub proof fn lemma_refine_bridges_plentiful_water(cells: Seq<u8>, side: int, k: int)
    requires
        side >= 3,
        cells.len() == side * side,
        count_code(road_repaired(cells, side), WATER_CODE, cells.len()) > water_limit(cells.len())
            || has_river(road_repaired(cells, side), side),
        0 <= k < cells.len(),
        1 <= col_of(k, side) < side - 1,
        1 <= row_of(k, side) < side - 1,
        ({
            let c = road_repaired(cells, side);
            (c[k - 1] == WATER_CODE && c[k + 1] == WATER_CODE) || (c[k - side] == WATER_CODE && c[k + side] == WATER_CODE)
        }),
    ensures
        refined(cells, side)[k] == WATER_CODE,
{
    let c1 = bridged_times(cells, side, ROAD_CODE, 1);
    let c2 = stubs_to_grass(c1, side, 4);
    let c3 = islands_to_grass(c2, side, 6);
    assert(c3 == road_repaired(cells, side));
    assert(bridged_times(cells, side, ROAD_CODE, 0) == cells);
    assert(c1 == bridged(cells, side, ROAD_CODE));
    assert(c3.len() == cells.len());
    let x = col_of(k, side);
    let y = row_of(k, side);
    lemma_pos_of_index(k, side);
    assert(pos(x - 1, y, side) == k - 1);
    assert(pos(x + 1, y, side) == k + 1);
    assert(pos(x, y - 1, side) == k - side) by (nonlinear_arith)
        requires
            pos(x, y, side) == k,
    {
    }
    assert(pos(x, y + 1, side) == k + side) by (nonlinear_arith)
        requires
            pos(x, y, side) == k,
    {
    }
    let b = bridged_times(c3, side, WATER_CODE, 1);
    assert(bridged_times(c3, side, WATER_CODE, 0) == c3);
    assert(b == bridged(c3, side, WATER_CODE));
    assert(b[k] == WATER_CODE) by {
        if c3[k] != WATER_CODE {
            assert(gap_pred(c3, side, WATER_CODE)(k));
        }
    }
    let c4 = river_filled_times(b, side, 1);
    assert(river_filled_times(b, side, 0) == b);
    assert(c4 == river_filled(b, side));
    assert(c4[k] == WATER_CODE);
    lemma_roads_to_water_keeps_water(c4, side, c4.len(), k);
}

} // verus!
