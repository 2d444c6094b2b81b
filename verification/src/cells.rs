//! Square rasters of terrain codes: indexing, neighbourhood counts and the
//! majority rules used when a raster is reduced or repaired.
use vstd::prelude::*;
use crate::world::TerrainKind;

verus! {

/// Code of `TerrainKind::Water` in a raster.
pub const WATER_CODE: u8 = 1;

/// Code of `TerrainKind::Grass` in a raster.
pub const GRASS_CODE: u8 = 2;

/// Code of `TerrainKind::Road` in a raster.
pub const ROAD_CODE: u8 = 7;

/// Terrain written where nothing else decides.
pub const DEFAULT_TERRAIN: TerrainKind = TerrainKind::Grass;

// ---------------------------------------------------------------------------
// The model of a raster
// ---------------------------------------------------------------------------

/// A raster of `side * side` cells stored row by row.
pub open spec fn grid_ok(cells: Seq<u8>, side: int) -> bool {
    side >= 0 && cells.len() == side * side
}

pub open spec fn in_grid(x: int, y: int, side: int) -> bool {
    0 <= x < side && 0 <= y < side
}

/// Row-major position of cell (x, y).
pub open spec fn pos(x: int, y: int, side: int) -> int {
    y * side + x
}

/// Column of the cell at row-major position `k`.
pub open spec fn col_of(k: int, side: int) -> int {
    k % side
}

/// Row of the cell at row-major position `k`.
pub open spec fn row_of(k: int, side: int) -> int {
    k / side
}

/// Cell (x, y) exists and holds `code`.
pub open spec fn has_code(cells: Seq<u8>, side: int, x: int, y: int, code: u8) -> bool {
    in_grid(x, y, side) && cells[pos(x, y, side)] == code
}

pub open spec fn b2i(b: bool) -> int {
    if b {
        1
    } else {
        0
    }
}

/// How many of the four edge neighbours of (x, y) hold `code`.
pub open spec fn cardinal_count(cells: Seq<u8>, side: int, x: int, y: int, code: u8) -> int {
    b2i(has_code(cells, side, x, y - 1, code)) + b2i(has_code(cells, side, x, y + 1, code)) + b2i(
        has_code(cells, side, x - 1, y, code),
    ) + b2i(has_code(cells, side, x + 1, y, code))
}

/// How many of the four corner neighbours of (x, y) hold `code`.
pub open spec fn diagonal_count(cells: Seq<u8>, side: int, x: int, y: int, code: u8) -> int {
    b2i(has_code(cells, side, x - 1, y - 1, code)) + b2i(has_code(cells, side, x + 1, y - 1, code))
        + b2i(has_code(cells, side, x - 1, y + 1, code)) + b2i(
        has_code(cells, side, x + 1, y + 1, code),
    )
}

pub open spec fn on_boundary(x: int, y: int, side: int) -> bool {
    x == 0 || y == 0 || x + 1 == side || y + 1 == side
}

/// Codes past the last class are counted with the last class.
pub open spec fn bucket(code: u8) -> int {
    if code < 7 {
        code as int
    } else {
        7
    }
}

/// Tie-break rank of a code when a reduced cell is chosen: water and road
/// rank low so that thin rivers and roads do not spread at coarse levels.
pub open spec fn tie_rank(code: int) -> u8 {
    if code == 1 || code == 7 {
        1
    } else if code == 2 {
        2
    } else if code == 5 {
        3
    } else if code == 3 {
        4
    } else if code == 6 {
        5
    } else if code == 4 {
        6
    } else {
        0
    }
}

/// Scan of the eight buckets in ascending order: a bucket with a nonzero count
/// wins over the current winner when its count is larger, or equal with a
/// higher tie rank. Before any bucket, the default terrain with count zero.
pub open spec fn pick_winner(counts: Seq<u8>, n: nat) -> (u8, u8, u8)
    decreases n,
{
    if n == 0 {
        (GRASS_CODE, 0, tie_rank(GRASS_CODE as int))
    } else {
        let prev = pick_winner(counts, (n - 1) as nat);
        let c = n - 1;
        if counts[c] > 0 && (counts[c] > prev.1 || (counts[c] == prev.1 && tie_rank(c) > prev.2)) {
            (c as u8, counts[c], tie_rank(c))
        } else {
            prev
        }
    }
}

/// Neighbour (x+dx, y+dy) exists, is not a road and falls into bucket `c`.
pub open spec fn non_road_hit(cells: Seq<u8>, side: int, x: int, y: int, c: int) -> bool {
    in_grid(x, y, side) && cells[pos(x, y, side)] != ROAD_CODE && bucket(cells[pos(x, y, side)])
        == c
}

/// Number of non-road cells among the eight neighbours of (x, y) in bucket `c`.
pub open spec fn neighbor_bucket_count(cells: Seq<u8>, side: int, x: int, y: int, c: int) -> int {
    b2i(non_road_hit(cells, side, x - 1, y - 1, c)) + b2i(non_road_hit(cells, side, x, y - 1, c))
        + b2i(non_road_hit(cells, side, x + 1, y - 1, c)) + b2i(
        non_road_hit(cells, side, x - 1, y, c),
    ) + b2i(non_road_hit(cells, side, x + 1, y, c)) + b2i(
        non_road_hit(cells, side, x - 1, y + 1, c),
    ) + b2i(non_road_hit(cells, side, x, y + 1, c)) + b2i(
        non_road_hit(cells, side, x + 1, y + 1, c),
    )
}

pub open spec fn neighbor_counts(cells: Seq<u8>, side: int, x: int, y: int) -> Seq<u8> {
    Seq::new(8, |c: int| neighbor_bucket_count(cells, side, x, y, c) as u8)
}

/// The code that replaces a road cell: the most frequent non-road code among
/// its eight neighbours, ties broken by `tie_rank`; grass when none exists.
pub open spec fn dominant_code(cells: Seq<u8>, side: int, x: int, y: int) -> u8 {
    pick_winner(neighbor_counts(cells, side, x, y), 8).0
}

// ---------------------------------------------------------------------------
// Arithmetic facts about positions
// ---------------------------------------------------------------------------

pub proof fn lemma_pos_in_range(x: int, y: int, side: int)
    requires
        in_grid(x, y, side),
    ensures
        0 <= pos(x, y, side) < side * side,
        pos(x, y, side) + side <= side * side || y + 1 == side,
{
    assert(0 <= y * side) by (nonlinear_arith)
        requires
            0 <= y,
            0 <= side,
    ;
    assert(y * side + x < side * side) by (nonlinear_arith)
        requires
            0 <= x < side,
            0 <= y < side,
    ;
    assert(y * side + x + side <= side * side || y + 1 == side) by (nonlinear_arith)
        requires
            0 <= x < side,
            0 <= y < side,
    ;
}

pub proof fn lemma_pos_of_index(k: int, side: int)
    requires
        side > 0,
        0 <= k < side * side,
    ensures
        in_grid(col_of(k, side), row_of(k, side), side),
        pos(col_of(k, side), row_of(k, side), side) == k,
{
    vstd::arithmetic::div_mod::lemma_fundamental_div_mod(k, side);
    assert(0 <= k % side < side) by {
        vstd::arithmetic::div_mod::lemma_mod_bound(k, side);
    }
    assert(0 <= k / side) by {
        vstd::arithmetic::div_mod::lemma_div_pos_is_pos(k, side);
    }
    assert(k / side < side) by {
        vstd::arithmetic::div_mod::lemma_div_by_multiple_is_strongly_ordered(k, side * side, side, side);
        assert(side * side == side * side);
        vstd::arithmetic::div_mod::lemma_div_multiples_vanish(side, side);
    }
    assert(side * (k / side) == (k / side) * side) by (nonlinear_arith);
}

pub proof fn lemma_index_of_pos(x: int, y: int, side: int)
    requires
        in_grid(x, y, side),
    ensures
        col_of(pos(x, y, side), side) == x,
        row_of(pos(x, y, side), side) == y,
{
    vstd::arithmetic::div_mod::lemma_fundamental_div_mod_converse(pos(x, y, side), side, y, x);
    assert(y * side + x == side * y + x) by (nonlinear_arith);
}

// ---------------------------------------------------------------------------
// Executable helpers
// ---------------------------------------------------------------------------

/// Row-major index of cell (x, y) in a raster with `side` cells per row.
pub fn cell_index(x: usize, y: usize, side: usize) -> (i: usize)
    requires
        y * side + x <= usize::MAX,
    ensures
        i == pos(x as int, y as int, side as int),
{
    assert(y * side <= y * side + x);
    let row_start = y * side;
    row_start + x
}

/// Signed coordinates (x, y) name a cell of the raster.
pub fn in_bounds(x: isize, y: isize, side: usize) -> (b: bool)
    ensures
        b == in_grid(x as int, y as int, side as int),
{
    x >= 0 && y >= 0 && (x as usize) < side && (y as usize) < side
}

/// Cell (x, y) lies in the outermost ring of the raster.
pub fn is_boundary_cell(x: usize, y: usize, side: usize) -> (b: bool)
    requires
        x < usize::MAX,
        y < usize::MAX,
    ensures
        b == on_boundary(x as int, y as int, side as int),
{
    x == 0 || y == 0 || x + 1 == side || y + 1 == side
}

/// Reads cell (x, y) when it exists and compares it with `code`.
fn code_is(cells: &Vec<u8>, side: usize, x: usize, y: usize, code: u8) -> (b: bool)
    requires
        grid_ok(cells@, side as int),
    ensures
        b == has_code(cells@, side as int, x as int, y as int, code),
{
    if x < side && y < side {
        let n = cells.len();
        proof {
            lemma_pos_in_range(x as int, y as int, side as int);
        }
        cells[y * side + x] == code
    } else {
        false
    }
}

/// Number of edge neighbours of (x, y) that hold `code`.
pub fn cardinal_code_count(cells: &Vec<u8>, side: usize, x: usize, y: usize, code: u8) -> (n: usize)
    requires
        grid_ok(cells@, side as int),
        x < side,
        y < side,
    ensures
        n == cardinal_count(cells@, side as int, x as int, y as int, code),
{
    let mut n: usize = 0;
    if y >= 1 && code_is(cells, side, x, y - 1, code) {
        n = n + 1;
    }
    if code_is(cells, side, x, y + 1, code) {
        n = n + 1;
    }
    if x >= 1 && code_is(cells, side, x - 1, y, code) {
        n = n + 1;
    }
    if code_is(cells, side, x + 1, y, code) {
        n = n + 1;
    }
    n
}

/// Number of corner neighbours of (x, y) that hold `code`.
pub fn diagonal_code_count(cells: &Vec<u8>, side: usize, x: usize, y: usize, code: u8) -> (n: usize)
    requires
        grid_ok(cells@, side as int),
        x < side,
        y < side,
    ensures
        n == diagonal_count(cells@, side as int, x as int, y as int, code),
{
    let mut n: usize = 0;
    if x >= 1 && y >= 1 && code_is(cells, side, x - 1, y - 1, code) {
        n = n + 1;
    }
    if y >= 1 && code_is(cells, side, x + 1, y - 1, code) {
        n = n + 1;
    }
    if x >= 1 && code_is(cells, side, x - 1, y + 1, code) {
        n = n + 1;
    }
    if code_is(cells, side, x + 1, y + 1, code) {
        n = n + 1;
    }
    n
}

/// Number of edge neighbours of (x, y) that are roads.
pub fn road_neighbor_count(cells: &Vec<u8>, side: usize, x: usize, y: usize) -> (n: usize)
    requires
        grid_ok(cells@, side as int),
        x < side,
        y < side,
    ensures
        n == cardinal_count(cells@, side as int, x as int, y as int, ROAD_CODE),
{
    cardinal_code_count(cells, side, x, y, ROAD_CODE)
}

/// Number of corner neighbours of (x, y) that are roads.
pub fn road_diagonal_neighbor_count(cells: &Vec<u8>, side: usize, x: usize, y: usize) -> (n: usize)
    requires
        grid_ok(cells@, side as int),
        x < side,
        y < side,
    ensures
        n == diagonal_count(cells@, side as int, x as int, y as int, ROAD_CODE),
{
    diagonal_code_count(cells, side, x, y, ROAD_CODE)
}

/// Number of edge neighbours of (x, y) that are water.
pub fn water_neighbor_count(cells: &Vec<u8>, side: usize, x: usize, y: usize) -> (n: usize)
    requires
        grid_ok(cells@, side as int),
        x < side,
        y < side,
    ensures
        n == cardinal_count(cells@, side as int, x as int, y as int, WATER_CODE),
{
    cardinal_code_count(cells, side, x, y, WATER_CODE)
}

/// Tie-break rank of a code when a reduced cell is chosen.
pub fn lod_tie_break_priority(code: u8) -> (r: u8)
    ensures
        r == tie_rank(code as int),
{
    match TerrainKind::from_code(code) {
        TerrainKind::Unknown => 0,
        TerrainKind::Water => 1,
        TerrainKind::Road => 1,
        TerrainKind::Grass => 2,
        TerrainKind::Farmland => 3,
        TerrainKind::Forest => 4,
        TerrainKind::Sand => 5,
        TerrainKind::Urban => 6,
    }
}

/// The winning code of eight bucket counts (see `pick_winner`).
fn winner_of_counts(counts: &Vec<u8>) -> (w: u8)
    requires
        counts@.len() == 8,
    ensures
        w == pick_winner(counts@, 8).0,
{
    let mut winner: u8 = GRASS_CODE;
    let mut winner_count: u8 = 0;
    let mut winner_priority: u8 = lod_tie_break_priority(winner);
    let mut code: usize = 0;
    while code < 8
        invariant
            0 <= code <= 8,
            counts@.len() == 8,
            (winner, winner_count, winner_priority) == pick_winner(counts@, code as nat),
        decreases 8 - code,
    {
        let count = counts[code];
        if count != 0 {
            let candidate = code as u8;
            let candidate_priority = lod_tie_break_priority(candidate);
            if count > winner_count || (count == winner_count && candidate_priority
                > winner_priority) {
                winner = candidate;
                winner_count = count;
                winner_priority = candidate_priority;
            }
        }
        code = code + 1;
    }
    winner
}

/// Adds neighbour (x + dx - 1, y + dy - 1) to the bucket counts when it exists
/// and is not a road.
fn tally_neighbor(
    counts: &mut Vec<u8>,
    cells: &Vec<u8>,
    side: usize,
    x: usize,
    y: usize,
    dx: usize,
    dy: usize,
)
    requires
        grid_ok(cells@, side as int),
        x < side,
        y < side,
        dx <= 2,
        dy <= 2,
        old(counts)@.len() == 8,
        forall|c: int| 0 <= c < 8 ==> old(counts)@[c] < 250,
    ensures
        final(counts)@.len() == 8,
        forall|c: int|
            0 <= c < 8 ==> final(counts)@[c] == old(counts)@[c] + b2i(
                non_road_hit(cells@, side as int, x + dx - 1, y + dy - 1, c),
            ),
{
    if (dx >= 1 || x >= 1) && (dy >= 1 || y >= 1) && dx <= side - x && dy <= side - y {
        let nx = x + dx - 1;
        let ny = y + dy - 1;
        let n = cells.len();
        proof {
            lemma_pos_in_range(nx as int, ny as int, side as int);
        }
        let neighbor = cells[ny * side + nx];
        if neighbor != ROAD_CODE {
            let b: usize = if neighbor < 7 {
                neighbor as usize
            } else {
                7
            };
            counts.set(b, counts[b] + 1);
        }
    }
}

/// The code that replaces road cell (x, y): the most frequent non-road code
/// among its eight neighbours, grass when there is none.
pub fn dominant_non_road_neighbor(cells: &Vec<u8>, side: usize, x: usize, y: usize) -> (c: u8)
    requires
        grid_ok(cells@, side as int),
        x < side,
        y < side,
    ensures
        c == dominant_code(cells@, side as int, x as int, y as int),
{
    let mut counts: Vec<u8> = vec![0u8; 8];
    tally_neighbor(&mut counts, cells, side, x, y, 0, 0);
    tally_neighbor(&mut counts, cells, side, x, y, 1, 0);
    tally_neighbor(&mut counts, cells, side, x, y, 2, 0);
    tally_neighbor(&mut counts, cells, side, x, y, 0, 1);
    tally_neighbor(&mut counts, cells, side, x, y, 2, 1);
    tally_neighbor(&mut counts, cells, side, x, y, 0, 2);
    tally_neighbor(&mut counts, cells, side, x, y, 1, 2);
    tally_neighbor(&mut counts, cells, side, x, y, 2, 2);
    assert(counts@ =~= neighbor_counts(cells@, side as int, x as int, y as int));
    winner_of_counts(&counts)
}


// ---------------------------------------------------------------------------
// Reduction of a 2x2 block to one cell
// ---------------------------------------------------------------------------

/// Number of the four samples that fall into bucket `c`.
pub open spec fn sample_bucket_count(s: Seq<u8>, c: int) -> int {
    b2i(bucket(s[0]) == c) + b2i(bucket(s[1]) == c) + b2i(bucket(s[2]) == c) + b2i(bucket(s[3]) == c)
}

pub open spec fn sample_counts(s: Seq<u8>) -> Seq<u8> {
    Seq::new(8, |c: int| sample_bucket_count(s, c) as u8)
}

/// Bit `i` is set when sample `i` equals `code` (samples in the order
/// top-left, top-right, bottom-left, bottom-right).
pub open spec fn code_mask(s: Seq<u8>, code: u8) -> u8 {
    (b2i(s[0] == code) + 2 * b2i(s[1] == code) + 4 * b2i(s[2] == code) + 8 * b2i(s[3] == code)) as u8
}

/// The mask selects exactly two samples that share an edge of the block.
pub open spec fn edge_pair(mask: u8) -> bool {
    mask == 3 || mask == 12 || mask == 5 || mask == 10
}

pub open spec fn max_count(counts: Seq<u8>, n: nat) -> u8
    decreases n,
{
    if n == 0 {
        0
    } else {
        let m = max_count(counts, (n - 1) as nat);
        if counts[n - 1] > m {
            counts[n - 1]
        } else {
            m
        }
    }
}

/// The code of a reduced cell: a two-two tie with the two water samples (or,
/// failing that, the two road samples) sharing an edge keeps water (road);
/// otherwise the majority bucket wins, ties broken by `tie_rank`.
pub open spec fn resolved_code(s: Seq<u8>) -> u8 {
    let counts = sample_counts(s);
    let m = max_count(counts, 8);
    if counts[1] == 2 && m == 2 && edge_pair(code_mask(s, WATER_CODE)) {
        WATER_CODE
    } else if counts[7] == 2 && m == 2 && edge_pair(code_mask(s, ROAD_CODE)) {
        ROAD_CODE
    } else {
        pick_winner(counts, 8).0
    }
}

/// The mask holds exactly two bits that share an edge of a 2x2 block.
pub fn is_edge_connected_pair(mask: u8) -> (b: bool)
    ensures
        b == edge_pair(mask),
{
    mask == 3 || mask == 12 || mask == 5 || mask == 10
}

/// Code of the parent cell that covers the 2x2 block `samples` (top-left,
/// top-right, bottom-left, bottom-right).
pub fn resolve_downsampled_cell(samples: [u8; 4]) -> (c: u8)
    ensures
        c == resolved_code(samples@),
{
    let mut counts: Vec<u8> = vec![0u8; 8];
    let mut water_mask: u8 = 0;
    let mut road_mask: u8 = 0;
    let mut i: usize = 0;
    while i < 4
        invariant
            0 <= i <= 4,
            counts@.len() == 8,
            forall|c: int|
                0 <= c < 8 ==> counts@[c] == b2i(i > 0 && bucket(samples@[0]) == c) + b2i(
                    i > 1 && bucket(samples@[1]) == c,
                ) + b2i(i > 2 && bucket(samples@[2]) == c) + b2i(i > 3 && bucket(samples@[3]) == c),
            water_mask == b2i(i > 0 && samples@[0] == WATER_CODE) + 2 * b2i(
                i > 1 && samples@[1] == WATER_CODE,
            ) + 4 * b2i(i > 2 && samples@[2] == WATER_CODE) + 8 * b2i(
                i > 3 && samples@[3] == WATER_CODE,
            ),
            road_mask == b2i(i > 0 && samples@[0] == ROAD_CODE) + 2 * b2i(
                i > 1 && samples@[1] == ROAD_CODE,
            ) + 4 * b2i(i > 2 && samples@[2] == ROAD_CODE) + 8 * b2i(
                i > 3 && samples@[3] == ROAD_CODE,
            ),
        decreases 4 - i,
    {
        let code = samples[i];
        let bit: u8 = if i == 0 {
            1
        } else if i == 1 {
            2
        } else if i == 2 {
            4
        } else {
            8
        };
        if code == WATER_CODE {
            water_mask = water_mask + bit;
        } else if code == ROAD_CODE {
            road_mask = road_mask + bit;
        }
        let b: usize = if code < 7 {
            code as usize
        } else {
            7
        };
        counts.set(b, counts[b] + 1);
        i = i + 1;
    }
    assert(counts@ =~= sample_counts(samples@));
    let water_count = counts[WATER_CODE as usize];
    let road_count = counts[ROAD_CODE as usize];
    let mut max_c: u8 = 0;
    let mut k: usize = 0;
    while k < 8
        invariant
            0 <= k <= 8,
            counts@ == sample_counts(samples@),
            max_c == max_count(counts@, k as nat),
        decreases 8 - k,
    {
        if counts[k] > max_c {
            max_c = counts[k];
        }
        k = k + 1;
    }
    if water_count == 2 && max_c == 2 && is_edge_connected_pair(water_mask) {
        return WATER_CODE;
    }
    if road_count == 2 && max_c == 2 && is_edge_connected_pair(road_mask) {
        return ROAD_CODE;
    }
    winner_of_counts(&counts)
}

proof fn lemma_pick_unique(counts: Seq<u8>, n: nat, c: int)
    requires
        counts.len() == 8,
        0 <= c < 8,
        n <= 8,
        counts[c] >= 2,
        forall|j: int| 0 <= j < 8 && j != c ==> counts[j] < counts[c],
    ensures
        n > c ==> pick_winner(counts, n).0 == c && pick_winner(counts, n).1 == counts[c],
        n <= c ==> pick_winner(counts, n).1 < counts[c],
    decreases n,
{
    if n > 0 {
        lemma_pick_unique(counts, (n - 1) as nat, c);
    }
}

proof fn lemma_max_count_at_least(counts: Seq<u8>, n: nat, c: int)
    requires
        0 <= c < n <= counts.len(),
    ensures
        max_count(counts, n) >= counts[c],
    decreases n,
{
    if c < n - 1 {
        lemma_max_count_at_least(counts, (n - 1) as nat, c);
    }
}

/// A code below eight held by at least three of the four samples is the
/// code of the reduced cell: a majority is never overruled.
pub proof fn lemma_majority_wins(s: Seq<u8>, c: u8)
    requires
        s.len() == 4,
        c < 8,
        b2i(s[0] == c) + b2i(s[1] == c) + b2i(s[2] == c) + b2i(s[3] == c) >= 3,
    ensures
        resolved_code(s) == c,
{
    let counts = sample_counts(s);
    assert(counts[c as int] >= 3);
    assert forall|j: int| 0 <= j < 8 && j != c implies counts[j] < counts[c as int] by {
        assert(sample_bucket_count(s, j) + sample_bucket_count(s, c as int) <= 4);
    }
    lemma_max_count_at_least(counts, 8, c as int);
    lemma_pick_unique(counts, 8, c as int);
}

} // verus!

verus! {

/// The block mirrored along its diagonal: top-right and bottom-left swap.
pub open spec fn transposed(s: Seq<u8>) -> Seq<u8> {
    seq![s[0], s[2], s[1], s[3]]
}

/// The block mirrored left to right.
pub open spec fn mirrored(s: Seq<u8>) -> Seq<u8> {
    seq![s[1], s[0], s[3], s[2]]
}

/// Samples `i` and `j` of a 2x2 block (top-left, top-right, bottom-left,
/// bottom-right) share an edge: a row or a column of the block.
pub open spec fn block_edge(i: int, j: int) -> bool {
    (i == 0 && j == 1) || (i == 2 && j == 3) || (i == 0 && j == 2) || (i == 1 && j == 3)
}

proof fn lemma_max_count_of_four(counts: Seq<u8>)
    requires
        counts.len() == 8,
    ensures
        max_count(counts, 8) == ({
            let a = if counts[0] > 0 { counts[0] } else { 0u8 };
            let b = if counts[1] > a { counts[1] } else { a };
            let c = if counts[2] > b { counts[2] } else { b };
            let d = if counts[3] > c { counts[3] } else { c };
            let e = if counts[4] > d { counts[4] } else { d };
            let f = if counts[5] > e { counts[5] } else { e };
            let g = if counts[6] > f { counts[6] } else { f };
            if counts[7] > g { counts[7] } else { g }
        }),
{
    reveal_with_fuel(max_count, 9);
}

/// Law: the reduced code of a 2x2 block does not depend on its orientation:
/// mirroring the block along its diagonal, or left to right, gives the same
/// code. In particular a water (or road) pair in a column is treated as the
/// same pair in a row.
pub proof fn lemma_resolved_code_symmetric(s: Seq<u8>)
    requires
        s.len() == 4,
    ensures
        resolved_code(transposed(s)) == resolved_code(s),
        resolved_code(mirrored(s)) == resolved_code(s),
{
    let t = transposed(s);
    let m = mirrored(s);
    assert(sample_counts(t) =~= sample_counts(s));
    assert(sample_counts(m) =~= sample_counts(s));
    assert(edge_pair(code_mask(t, WATER_CODE)) == edge_pair(code_mask(s, WATER_CODE)));
    assert(edge_pair(code_mask(t, ROAD_CODE)) == edge_pair(code_mask(s, ROAD_CODE)));
    assert(edge_pair(code_mask(m, WATER_CODE)) == edge_pair(code_mask(s, WATER_CODE)));
    assert(edge_pair(code_mask(m, ROAD_CODE)) == edge_pair(code_mask(s, ROAD_CODE)));
}

/// Law: a 2x2 block whose water is exactly two samples sharing an edge of the
/// block (its top or bottom row, its left or right column) reduces to water,
/// whatever the other two samples hold, so one-cell-wide rivers survive in
/// every direction.
pub proof fn lemma_water_pair_block_stays_water(s: Seq<u8>, i: int, j: int)
    requires
        s.len() == 4,
        block_edge(i, j),
        s[i] == WATER_CODE,
        s[j] == WATER_CODE,
        forall|k: int| 0 <= k < 4 && k != i && k != j ==> s[k] != WATER_CODE,
    ensures
        resolved_code(s) == WATER_CODE,
{
    let counts = sample_counts(s);
    lemma_max_count_of_four(counts);
    assert(counts[1] == 2);
}

/// Law: a 2x2 block whose only samples in the road class are two road
/// samples sharing an edge of the block reduces to road, unless the other
/// two samples are both water.
pub proof fn lemma_road_pair_block_stays_road(s: Seq<u8>, i: int, j: int)
    requires
        s.len() == 4,
        block_edge(i, j),
        s[i] == ROAD_CODE,
        s[j] == ROAD_CODE,
        forall|k: int| 0 <= k < 4 && k != i && k != j ==> s[k] < ROAD_CODE,
        !(forall|k: int| 0 <= k < 4 && k != i && k != j ==> s[k] == WATER_CODE),
    ensures
        resolved_code(s) == ROAD_CODE,
{
    let counts = sample_counts(s);
    lemma_max_count_of_four(counts);
    assert(counts[7] == 2);
}

} // verus!
