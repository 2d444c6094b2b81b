//! Integer bookkeeping of the tile grid and of the chunk raster: tile ids,
//! the tiles covering a range of grid cells, the chunk window of each polygon,
//! and how merged rasters keep the higher-priority terrain.
use vstd::prelude::*;
use crate::pyramid::pow2;
use crate::sorted::increasing_u32;
use crate::world::{terrain_of_code, terrain_priority, QuantizedBounds, QuantizedPoint, TerrainKind};

verus! {

/// Id of the tile in column `grid_x`, row `grid_y`: rows are numbered first.
pub open spec fn tile_id_of(cols: int, grid_x: int, grid_y: int) -> int {
    grid_y * cols + grid_x
}

/// Id of the tile in column `grid_x`, row `grid_y` of a grid `cols` wide.
pub fn tile_id(cols: u32, grid_x: u32, grid_y: u32) -> (id: u32)
    requires
        grid_y * cols + grid_x <= u32::MAX,
    ensures
        id == tile_id_of(cols as int, grid_x as int, grid_y as int),
{
    assert(grid_y * cols <= grid_y * cols + grid_x);
    let row_start = grid_y * cols;
    row_start + grid_x
}

pub open spec fn clamp(v: int, lo: int, hi: int) -> int {
    if v < lo {
        lo
    } else if v > hi {
        hi
    } else {
        v
    }
}

/// Ids of columns `x0..=x` of row `y`.
pub open spec fn row_ids(cols: int, y: int, x0: int, x: int) -> Seq<u32>
    decreases x - x0 + 1,
{
    if x < x0 {
        Seq::empty()
    } else {
        row_ids(cols, y, x0, x - 1).push(tile_id_of(cols, x, y) as u32)
    }
}

/// Ids of rows `y0..=y`, each row from column `x0` to `x1`, row after row.
pub open spec fn rect_ids(cols: int, x0: int, x1: int, y0: int, y: int) -> Seq<u32>
    decreases y - y0 + 1,
{
    if y < y0 {
        Seq::empty()
    } else {
        rect_ids(cols, x0, x1, y0, y - 1) + row_ids(cols, y, x0, x1)
    }
}

/// The tiles covering grid columns `min_x..=max_x` and rows `min_y..=max_y`,
/// each bound first clamped into the grid.
pub open spec fn tiles_in_range(cols: int, rows: int, min_x: int, max_x: int, min_y: int, max_y: int) -> Seq<u32> {
    let hx = if cols > 0 { cols - 1 } else { 0 };
    let hy = if rows > 0 { rows - 1 } else { 0 };
    rect_ids(cols, clamp(min_x, 0, hx), clamp(max_x, 0, hx), clamp(min_y, 0, hy), clamp(max_y, 0, hy))
}

/// The tiles covering a range of grid cells (see `tiles_in_range`); the
/// range is given in whole grid cells, as the floor of the covered metres
/// divided by the tile size.
pub fn tile_ids_in_index_range(cols: u32, rows: u32, min_x: i64, max_x: i64, min_y: i64, max_y: i64) -> (ids: Vec<u32>)
    requires
        (rows as int) * (cols as int) <= u32::MAX + 1,
    ensures
        ids@ == tiles_in_range(cols as int, rows as int, min_x as int, max_x as int, min_y as int, max_y as int),
{
    let hx: i64 = if cols > 0 { cols as i64 - 1 } else { 0 };
    let hy: i64 = if rows > 0 { rows as i64 - 1 } else { 0 };
    let x0 = if min_x < 0 { 0 } else if min_x > hx { hx } else { min_x };
    let x1 = if max_x < 0 { 0 } else if max_x > hx { hx } else { max_x };
    let y0 = if min_y < 0 { 0 } else if min_y > hy { hy } else { min_y };
    let y1 = if max_y < 0 { 0 } else if max_y > hy { hy } else { max_y };
    rect_tile_ids(cols, rows, x0, x1, y0, y1)
}

/// The tiles of a view: columns `min_tile_x..=max_tile_x` and rows
/// `min_tile_y..=max_tile_y`, cut to the grid (none where the cut range is
/// empty), row after row.
pub fn visible_tile_ids(cols: u32, rows: u32, min_tile_x: i32, max_tile_x: i32, min_tile_y: i32, max_tile_y: i32) -> (ids: Vec<u32>)
    requires
        (rows as int) * (cols as int) <= u32::MAX + 1,
        rows <= i32::MAX,
        cols <= i32::MAX,
    ensures
        ids@ == rect_ids(
            cols as int,
            if min_tile_x > 0 { min_tile_x as int } else { 0 },
            if max_tile_x < cols - 1 { max_tile_x as int } else { cols - 1 },
            if min_tile_y > 0 { min_tile_y as int } else { 0 },
            if max_tile_y < rows - 1 { max_tile_y as int } else { rows - 1 },
        ),
{
    let x0: i64 = if min_tile_x > 0 { min_tile_x as i64 } else { 0 };
    let y0: i64 = if min_tile_y > 0 { min_tile_y as i64 } else { 0 };
    let x1: i64 = if (max_tile_x as i64) < cols as i64 - 1 { max_tile_x as i64 } else { cols as i64 - 1 };
    let y1: i64 = if (max_tile_y as i64) < rows as i64 - 1 { max_tile_y as i64 } else { rows as i64 - 1 };
    rect_tile_ids(cols, rows, x0, x1, y0, y1)
}

/// Ids of columns `x0..=x1` of rows `y0..=y1`, row after row.
fn rect_tile_ids(cols: u32, rows: u32, x0: i64, x1: i64, y0: i64, y1: i64) -> (ids: Vec<u32>)
    requires
        (rows as int) * (cols as int) <= u32::MAX + 1,
        0 <= x0,
        0 <= y0,
        x1 <= (if cols > 0 { cols - 1 } else { 0 }),
        y1 <= (if rows > 0 { rows - 1 } else { 0 }),
    ensures
        ids@ == rect_ids(cols as int, x0 as int, x1 as int, y0 as int, y1 as int),
{
    let ghost hx: int = if cols > 0 { cols - 1 } else { 0 };
    let ghost hy: int = if rows > 0 { rows - 1 } else { 0 };
    let mut ids: Vec<u32> = Vec::new();
    let mut y = y0;
    proof {
        assert(rect_ids(cols as int, x0 as int, x1 as int, y0 as int, y0 - 1) == Seq::<u32>::empty());
    }
    while y <= y1
        invariant
            0 <= y0 <= y,
            y <= y1 + 1 || y == y0,
            y1 <= hy,
            0 <= x0,
            x1 <= hx,
            hx == (if cols > 0 { cols - 1 } else { 0 }),
            hy == (if rows > 0 { rows - 1 } else { 0 }),
            (rows as int) * (cols as int) <= u32::MAX + 1,
            ids@ == rect_ids(cols as int, x0 as int, x1 as int, y0 as int, y - 1),
        decreases y1 + 1 - y,
    {
        let ghost before = ids@;
        let mut x = x0;
        proof {
            assert(row_ids(cols as int, y as int, x0 as int, x0 - 1) == Seq::<u32>::empty());
            assert(before + Seq::<u32>::empty() =~= before);
        }
        while x <= x1
            invariant
                0 <= x0 <= x,
                x <= x1 + 1 || x == x0,
                x1 <= hx,
                0 <= y <= hy,
                hx == (if cols > 0 { cols - 1 } else { 0 }),
                hy == (if rows > 0 { rows - 1 } else { 0 }),
                (rows as int) * (cols as int) <= u32::MAX + 1,
                ids@ == before + row_ids(cols as int, y as int, x0 as int, x - 1),
            decreases x1 + 1 - x,
        {
            proof {
                lemma_id_fits(cols as int, rows as int, x as int, y as int);
            }
            let id = (y as u32) * cols + (x as u32);
            ids.push(id);
            proof {
                assert(before + row_ids(cols as int, y as int, x0 as int, x as int) =~= (before + row_ids(cols as int, y as int, x0 as int, x - 1)).push(id));
            }
            x = x + 1;
        }
        y = y + 1;
    }
    ids
}

proof fn lemma_id_fits(cols: int, rows: int, x: int, y: int)
    requires
        0 <= x <= (if cols > 0 { cols - 1 } else { 0 }),
        0 <= y <= (if rows > 0 { rows - 1 } else { 0 }),
        0 <= cols <= u32::MAX,
        rows >= 0,
        rows * cols <= u32::MAX + 1,
    ensures
        0 <= y * cols,
        y * cols + x <= u32::MAX,
{
    assert(0 <= y * cols) by (nonlinear_arith)
        requires
            0 <= y,
            0 <= cols,
    ;
    if cols > 0 && rows > 0 {
        assert(y * cols + x <= rows * cols - 1) by (nonlinear_arith)
            requires
                0 <= x <= cols - 1,
                0 <= y <= rows - 1,
        ;
    } else if cols == 0 {
        assert(y * cols == 0) by (nonlinear_arith)
            requires
                cols == 0,
        ;
    } else {
        assert(y == 0);
        assert(y * cols == 0) by (nonlinear_arith)
            requires
                y == 0,
        ;
    }
}

/// The chunks a polygon's bounding box touches, inclusive on both ends.
#[derive(Debug, Clone, Copy, PartialEq, Eq, Structural)]
pub struct PolygonChunkBounds {
    pub min_chunk_x: i32,
    pub min_chunk_y: i32,
    pub max_chunk_x: i32,
    pub max_chunk_y: i32,
}

impl PolygonChunkBounds {
    /// The chunk rows of the polygon meet rows `window_min_y..=window_max_y`.
    pub fn intersects_row_window(self, window_min_y: i32, window_max_y: i32) -> (b: bool)
        ensures
            b == (self.max_chunk_y >= window_min_y && self.min_chunk_y <= window_max_y),
    {
        self.max_chunk_y >= window_min_y && self.min_chunk_y <= window_max_y
    }
}

/// The chunk bounds of every polygon, their union, and the polygons' bounds
/// (of whatever coordinate type `B` the caller measures them in).
pub struct RasterChunkIndex<B> {
    pub min_chunk_x: i32,
    pub min_chunk_y: i32,
    pub max_chunk_x: i32,
    pub max_chunk_y: i32,
    polygon_bounds: Vec<B>,
    polygon_chunk_bounds: Vec<PolygonChunkBounds>,
}

pub open spec fn span(min: int, max: int) -> int {
    if max - min + 1 > 0 {
        max - min + 1
    } else {
        0
    }
}

impl<B: Copy> RasterChunkIndex<B> {
    /// First chunk column of the index.
    pub closed spec fn first_col(&self) -> i32 {
        self.min_chunk_x
    }

    /// First chunk row of the index.
    pub closed spec fn first_row(&self) -> i32 {
        self.min_chunk_y
    }

    /// Last chunk column of the index.
    pub closed spec fn last_col(&self) -> i32 {
        self.max_chunk_x
    }

    /// Last chunk row of the index.
    pub closed spec fn last_row(&self) -> i32 {
        self.max_chunk_y
    }

    pub closed spec fn bounds_view(&self) -> Seq<B> {
        self.polygon_bounds@
    }

    pub closed spec fn chunk_bounds_view(&self) -> Seq<PolygonChunkBounds> {
        self.polygon_chunk_bounds@
    }

    /// Number of chunk columns the index spans (zero when empty).
    pub fn chunk_span_width(&self) -> (w: usize)
        requires
            i32::MIN <= self.last_col() - self.first_col() < i32::MAX,
        ensures
            w == span(self.first_col() as int, self.last_col() as int),
    {
        let d = self.max_chunk_x - self.min_chunk_x + 1;
        if d > 0 {
            d as usize
        } else {
            0
        }
    }

    /// Number of chunk rows the index spans (zero when empty).
    pub fn chunk_span_height(&self) -> (h: usize)
        requires
            i32::MIN <= self.last_row() - self.first_row() < i32::MAX,
        ensures
            h == span(self.first_row() as int, self.last_row() as int),
    {
        let d = self.max_chunk_y - self.min_chunk_y + 1;
        if d > 0 {
            d as usize
        } else {
            0
        }
    }

    /// No polygon is indexed.
    pub fn is_empty(&self) -> (b: bool)
        ensures
            b == (self.bounds_view().len() == 0),
    {
        self.polygon_bounds.len() == 0
    }

    /// Bounds of polygon `polygon_idx`.
    pub fn polygon_bounds(&self, polygon_idx: usize) -> (b: B)
        requires
            polygon_idx < self.bounds_view().len(),
        ensures
            b == self.bounds_view()[polygon_idx as int],
    {
        self.polygon_bounds[polygon_idx]
    }

    /// First and last chunk column of the index.
    pub(crate) fn col_range(&self) -> (r: (i32, i32))
        ensures
            r.0 == self.first_col(),
            r.1 == self.last_col(),
    {
        (self.min_chunk_x, self.max_chunk_x)
    }

    /// Number of polygons whose chunk bounds are indexed.
    pub(crate) fn polygon_count(&self) -> (n: usize)
        ensures
            n == self.chunk_bounds_view().len(),
    {
        self.polygon_chunk_bounds.len()
    }

    /// Chunk bounds of polygon `polygon_idx`.
    pub fn polygon_chunk_bounds(&self, polygon_idx: usize) -> (b: PolygonChunkBounds)
        requires
            polygon_idx < self.chunk_bounds_view().len(),
        ensures
            b == self.chunk_bounds_view()[polygon_idx as int],
    {
        self.polygon_chunk_bounds[polygon_idx]
    }
}

/// Least of a field over the first `n` chunk bounds.
pub open spec fn min_of(c: Seq<PolygonChunkBounds>, n: nat, f: spec_fn(PolygonChunkBounds) -> i32) -> i32
    decreases n,
{
    if n == 0 {
        i32::MAX
    } else {
        let m = min_of(c, (n - 1) as nat, f);
        if f(c[n - 1]) < m {
            f(c[n - 1])
        } else {
            m
        }
    }
}

/// Greatest of a field over the first `n` chunk bounds.
pub open spec fn max_of(c: Seq<PolygonChunkBounds>, n: nat, f: spec_fn(PolygonChunkBounds) -> i32) -> i32
    decreases n,
{
    if n == 0 {
        i32::MIN
    } else {
        let m = max_of(c, (n - 1) as nat, f);
        if f(c[n - 1]) > m {
            f(c[n - 1])
        } else {
            m
        }
    }
}

pub open spec fn f_min_x() -> spec_fn(PolygonChunkBounds) -> i32 {
    |b: PolygonChunkBounds| b.min_chunk_x
}

pub open spec fn f_min_y() -> spec_fn(PolygonChunkBounds) -> i32 {
    |b: PolygonChunkBounds| b.min_chunk_y
}

pub open spec fn f_max_x() -> spec_fn(PolygonChunkBounds) -> i32 {
    |b: PolygonChunkBounds| b.max_chunk_x
}

pub open spec fn f_max_y() -> spec_fn(PolygonChunkBounds) -> i32 {
    |b: PolygonChunkBounds| b.max_chunk_y
}

/// Indexes polygons by the chunks they touch, given each polygon's bounds
/// and chunk bounds (in the same order): the index spans the union of the
/// chunk bounds, or chunks (0, 0) to (-1, -1) when there is no polygon.
pub fn build_chunk_polygon_index<B: Copy>(polygon_bounds: Vec<B>, polygon_chunk_bounds: Vec<PolygonChunkBounds>) -> (idx: RasterChunkIndex<B>)
    requires
        polygon_bounds@.len() == polygon_chunk_bounds@.len(),
    ensures
        idx.bounds_view() == polygon_bounds@,
        idx.chunk_bounds_view() == polygon_chunk_bounds@,
        polygon_bounds@.len() == 0 ==> idx.first_col() == 0 && idx.first_row() == 0 && idx.last_col() == -1 && idx.last_row() == -1,
        polygon_bounds@.len() > 0 ==> {
            let c = polygon_chunk_bounds@;
            &&& idx.first_col() == min_of(c, c.len(), f_min_x())
            &&& idx.first_row() == min_of(c, c.len(), f_min_y())
            &&& idx.last_col() == max_of(c, c.len(), f_max_x())
            &&& idx.last_row() == max_of(c, c.len(), f_max_y())
        },
{
    let mut min_chunk_x = i32::MAX;
    let mut min_chunk_y = i32::MAX;
    let mut max_chunk_x = i32::MIN;
    let mut max_chunk_y = i32::MIN;
    let ghost c = polygon_chunk_bounds@;
    let mut i: usize = 0;
    while i < polygon_chunk_bounds.len()
        invariant
            0 <= i <= c.len(),
            c == polygon_chunk_bounds@,
            min_chunk_x == min_of(c, i as nat, f_min_x()),
            min_chunk_y == min_of(c, i as nat, f_min_y()),
            max_chunk_x == max_of(c, i as nat, f_max_x()),
            max_chunk_y == max_of(c, i as nat, f_max_y()),
        decreases c.len() - i,
    {
        let b = polygon_chunk_bounds[i];
        if b.min_chunk_x < min_chunk_x {
            min_chunk_x = b.min_chunk_x;
        }
        if b.min_chunk_y < min_chunk_y {
            min_chunk_y = b.min_chunk_y;
        }
        if b.max_chunk_x > max_chunk_x {
            max_chunk_x = b.max_chunk_x;
        }
        if b.max_chunk_y > max_chunk_y {
            max_chunk_y = b.max_chunk_y;
        }
        i = i + 1;
    }
    if polygon_bounds.len() == 0 {
        return RasterChunkIndex {
            min_chunk_x: 0,
            min_chunk_y: 0,
            max_chunk_x: -1,
            max_chunk_y: -1,
            polygon_bounds,
            polygon_chunk_bounds,
        };
    }
    RasterChunkIndex { min_chunk_x, min_chunk_y, max_chunk_x, max_chunk_y, polygon_bounds, polygon_chunk_bounds }
}

pub open spec fn sat_mul(a: int, b: int, max: int) -> int {
    if a * b > max {
        max
    } else {
        a * b
    }
}

/// Rows of chunks rasterized per window: the memory budget over six bytes
/// per cell of a chunk (at least 1024 chunks), divided by the span width,
/// kept between 8 and 256.
pub open spec fn window_rows(cells_per_side: int, span_width: int, budget: int) -> int {
    let cells = sat_mul(cells_per_side, cells_per_side, usize::MAX as int);
    let cells1 = if cells > 1 { cells } else { 1 };
    let per = sat_mul(cells1, 6, u64::MAX as int);
    let per1 = if per > 1 { per } else { 1 };
    let target0 = budget / per1;
    let target = if target0 > 1024 { target0 } else { 1024 };
    let width = if span_width > 1 { span_width } else { 1 };
    clamp(target / width, 8, 256)
}

/// Rows of chunks to rasterize per window (see `window_rows`).
pub fn estimate_window_rows(cells_per_side: usize, span_width: usize, raster_memory_budget_bytes: u64) -> (rows: usize)
    ensures
        rows == window_rows(cells_per_side as int, span_width as int, raster_memory_budget_bytes as int),
{
    let cells = match cells_per_side.checked_mul(cells_per_side) {
        Some(c) => c,
        None => usize::MAX,
    };
    let cells1 = if cells > 1 { cells } else { 1 };
    let per = match (cells1 as u64).checked_mul(6) {
        Some(p) => p,
        None => u64::MAX,
    };
    let per1 = if per > 1 { per } else { 1 };
    let target0 = raster_memory_budget_bytes / per1;
    let target = if target0 > 1024 { target0 } else { 1024 };
    let width: u64 = if span_width > 1 { span_width as u64 } else { 1 };
    let estimated = target / width;
    let clamped = if estimated < 8 { 8 } else if estimated > 256 { 256 } else { estimated };
    clamped as usize
}

/// Priority of the terrain a cell code stands for.
pub open spec fn code_priority(code: u8) -> u8 {
    terrain_priority(terrain_of_code(code))
}

/// `left` after merging `right` into it: each cell present in both takes the
/// right code when its priority is strictly higher.
pub open spec fn merged_cells(left: Seq<u8>, right: Seq<u8>) -> Seq<u8> {
    Seq::new(left.len(), |i: int| if i < right.len() && code_priority(right[i]) > code_priority(left[i]) { right[i] } else { left[i] })
}

/// Merges the raster `right` into `left`, keeping the higher-priority
/// terrain in every cell (the left one on ties).
pub fn merge_chunk_cells(left: &mut Vec<u8>, right: &Vec<u8>)
    ensures
        final(left)@ == merged_cells(old(left)@, right@),
{
    let ghost l0 = left@;
    let n = left.len();
    let mut i: usize = 0;
    while i < n && i < right.len()
        invariant
            0 <= i <= n,
            n == l0.len(),
            left@.len() == n,
            forall|j: int| 0 <= j < n ==> #[trigger] left@[j] == if j < i && j < right@.len() && code_priority(right@[j]) > code_priority(l0[j]) { right@[j] } else { l0[j] },
        decreases n - i,
    {
        let r = right[i];
        let l = left[i];
        if TerrainKind::from_code(r).priority() > TerrainKind::from_code(l).priority() {
            left.set(i, r);
        }
        i = i + 1;
    }
    assert(left@ =~= merged_cells(l0, right@));
}

/// Every merged cell carries the higher of the two priorities.
pub proof fn lemma_merge_keeps_max_priority(left: Seq<u8>, right: Seq<u8>, i: int)
    requires
        0 <= i < left.len(),
        i < right.len(),
    ensures
        code_priority(merged_cells(left, right)[i]) >= code_priority(left[i]),
        code_priority(merged_cells(left, right)[i]) >= code_priority(right[i]),
        merged_cells(left, right)[i] == left[i] || merged_cells(left, right)[i] == right[i],
{
}

/// Least and greatest coordinates of a point list.
pub open spec fn qbounds(points: Seq<QuantizedPoint>, n: nat) -> QuantizedBounds
    decreases n,
{
    if n <= 1 {
        QuantizedBounds { min_x: points[0].x, min_y: points[0].y, max_x: points[0].x, max_y: points[0].y }
    } else {
        let b = qbounds(points, (n - 1) as nat);
        let p = points[n - 1];
        QuantizedBounds {
            min_x: if p.x < b.min_x { p.x } else { b.min_x },
            min_y: if p.y < b.min_y { p.y } else { b.min_y },
            max_x: if p.x > b.max_x { p.x } else { b.max_x },
            max_y: if p.y > b.max_y { p.y } else { b.max_y },
        }
    }
}

/// Bounding box of the points; none for an empty list.
pub fn quantized_bounds(points: &[QuantizedPoint]) -> (b: Option<QuantizedBounds>)
    ensures
        points@.len() == 0 <==> b is None,
        b matches Some(q) ==> q == qbounds(points@, points@.len()),
{
    if points.len() == 0 {
        return None;
    }
    let first = points[0];
    let mut min_x = first.x;
    let mut min_y = first.y;
    let mut max_x = first.x;
    let mut max_y = first.y;
    let mut i: usize = 1;
    while i < points.len()
        invariant
            1 <= i <= points@.len(),
            (QuantizedBounds { min_x, min_y, max_x, max_y }) == qbounds(points@, i as nat),
        decreases points@.len() - i,
    {
        let p = points[i];
        if p.x < min_x {
            min_x = p.x;
        }
        if p.y < min_y {
            min_y = p.y;
        }
        if p.x > max_x {
            max_x = p.x;
        }
        if p.y > max_y {
            max_y = p.y;
        }
        i = i + 1;
    }
    Some(QuantizedBounds { min_x, min_y, max_x, max_y })
}

/// The bounding box contains every point, and each of its edges touches one.
pub proof fn lemma_qbounds_tight(points: Seq<QuantizedPoint>, n: nat)
    requires
        1 <= n <= points.len(),
    ensures
        forall|i: int| 0 <= i < n ==> qbounds(points, n).min_x <= #[trigger] points[i].x <= qbounds(points, n).max_x && qbounds(points, n).min_y <= points[i].y <= qbounds(points, n).max_y,
        exists|i: int| 0 <= i < n && points[i].x == qbounds(points, n).min_x,
        exists|i: int| 0 <= i < n && points[i].x == qbounds(points, n).max_x,
        exists|i: int| 0 <= i < n && points[i].y == qbounds(points, n).min_y,
        exists|i: int| 0 <= i < n && points[i].y == qbounds(points, n).max_y,
    decreases n,
{
    if n > 1 {
        lemma_qbounds_tight(points, (n - 1) as nat);
        let b = qbounds(points, (n - 1) as nat);
        let q = qbounds(points, n);
        let last = n - 1;
        if points[last].x < b.min_x {
            assert(points[last].x == q.min_x);
        } else {
            let i = choose|i: int| 0 <= i < n - 1 && points[i].x == b.min_x;
            assert(points[i].x == q.min_x);
        }
        if points[last].x > b.max_x {
            assert(points[last].x == q.max_x);
        } else {
            let i = choose|i: int| 0 <= i < n - 1 && points[i].x == b.max_x;
            assert(points[i].x == q.max_x);
        }
        if points[last].y < b.min_y {
            assert(points[last].y == q.min_y);
        } else {
            let i = choose|i: int| 0 <= i < n - 1 && points[i].y == b.min_y;
            assert(points[i].y == q.min_y);
        }
        if points[last].y > b.max_y {
            assert(points[last].y == q.max_y);
        } else {
            let i = choose|i: int| 0 <= i < n - 1 && points[i].y == b.max_y;
            assert(points[i].y == q.max_y);
        }
    } else {
        assert(points[0].x == qbounds(points, n).min_x);
        assert(points[0].x == qbounds(points, n).max_x);
        assert(points[0].y == qbounds(points, n).min_y);
        assert(points[0].y == qbounds(points, n).max_y);
    }
}

/// `n` is the number of detail levels of a map of `total_chunks` chunks of a
/// square kilometre: max(2, ceil(log2(total_chunks / 1000)) + 1).
pub open spec fn is_lod_count(total_chunks: int, n: int) -> bool {
    if total_chunks <= 1000 {
        n == 2
    } else {
        n >= 2 && 1000 * pow2((n - 2) as nat) < total_chunks <= 1000 * pow2((n - 1) as nat)
    }
}

/// Number of detail levels of a map of `total_chunks` chunks (see
/// `is_lod_count`).
pub fn lod_count(total_chunks: u64) -> (n: usize)
    ensures
        is_lod_count(total_chunks as int, n as int),
        n <= 66,
{
    if total_chunks <= 1000 {
        return 2;
    }
    let mut k: usize = 0;
    let mut p: u128 = 1000;
    while p < total_chunks as u128
        invariant
            k <= 65,
            p == 1000 * pow2(k as nat),
            p >= 1000,
            total_chunks > 1000,
            p <= 2 * (total_chunks as int),
            k > 0 ==> 1000 * pow2((k - 1) as nat) < total_chunks,
        decreases 2 * (total_chunks as int) - p,
    {
        proof {
            assert(pow2((k + 1) as nat) == 2 * pow2(k as nat));
            if k >= 65 {
                lemma_pow2_grows(k as nat);
                assert(false);
            }
        }
        p = p * 2;
        k = k + 1;
    }
    k + 1
}

proof fn lemma_pow2_grows(k: nat)
    requires
        k >= 65,
    ensures
        1000 * pow2(k) > 2 * (u64::MAX as int),
    decreases k,
{
    if k == 65 {
        assert(pow2(65) == 0x2_0000_0000_0000_0000) by {
            reveal_with_fuel(pow2, 66);
        }
    } else {
        lemma_pow2_grows((k - 1) as nat);
    }
}

proof fn lemma_row_ids_values(cols: int, y: int, x0: int, x: int)
    requires
        0 <= x0,
        0 <= y,
        0 <= y * cols,
        y * cols + x <= u32::MAX,
    ensures
        row_ids(cols, y, x0, x).len() == (if x < x0 { 0 } else { x - x0 + 1 }),
        forall|i: int| 0 <= i < row_ids(cols, y, x0, x).len() ==> #[trigger] row_ids(cols, y, x0, x)[i] == y * cols + x0 + i,
    decreases x - x0 + 1,
{
    if x >= x0 {
        lemma_row_ids_values(cols, y, x0, x - 1);
    }
}

proof fn lemma_rect_ids_ordered(cols: int, rows: int, x0: int, x1: int, y0: int, y: int)
    requires
        0 <= x0,
        x0 <= x1 < cols,
        cols <= u32::MAX,
        0 <= y0,
        y < rows,
        rows * cols <= u32::MAX + 1,
    ensures
        increasing_u32(rect_ids(cols, x0, x1, y0, y)),
        forall|i: int| 0 <= i < rect_ids(cols, x0, x1, y0, y).len() ==> y0 * cols + x0 <= #[trigger] rect_ids(cols, x0, x1, y0, y)[i] <= y * cols + x1,
    decreases y - y0 + 1,
{
    if y >= y0 {
        let prev = rect_ids(cols, x0, x1, y0, y - 1);
        let row = row_ids(cols, y, x0, x1);
        lemma_rect_ids_ordered(cols, rows, x0, x1, y0, y - 1);
        lemma_id_fits(cols, rows, x1, y);
        lemma_row_ids_values(cols, y, x0, x1);
        assert(y * cols == (y - 1) * cols + cols) by (nonlinear_arith);
        assert(y0 * cols <= y * cols) by (nonlinear_arith)
            requires
                y0 <= y,
                0 <= cols,
        ;
        let r = prev + row;
        assert(rect_ids(cols, x0, x1, y0, y) == r);
        assert forall|i: int, j: int| 0 <= i < j < r.len() implies r[i] < r[j] by {
            if j < prev.len() {
                assert(r[i] == prev[i] && r[j] == prev[j]);
            } else if i < prev.len() {
                assert(r[j] == row[j - prev.len()]);
                assert(r[i] == prev[i]);
            } else {
                assert(r[i] == row[i - prev.len()] && r[j] == row[j - prev.len()]);
            }
        }
        assert forall|i: int| 0 <= i < r.len() implies y0 * cols + x0 <= #[trigger] r[i] <= y * cols + x1 by {
            if i < prev.len() {
                assert(r[i] == prev[i]);
            } else {
                assert(r[i] == row[i - prev.len()]);
            }
        }
    }
}

/// Law: the tiles covering a range of grid cells are existing tiles, each
/// listed once, in ascending order.
pub proof fn lemma_tiles_in_range_ordered(cols: int, rows: int, min_x: int, max_x: int, min_y: int, max_y: int)
    requires
        1 <= cols <= u32::MAX,
        rows >= 1,
        rows * cols <= u32::MAX + 1,
    ensures
        increasing_u32(tiles_in_range(cols, rows, min_x, max_x, min_y, max_y)),
        forall|i: int| 0 <= i < tiles_in_range(cols, rows, min_x, max_x, min_y, max_y).len() ==> #[trigger] tiles_in_range(cols, rows, min_x, max_x, min_y, max_y)[i] < rows * cols,
{
    let x0 = clamp(min_x, 0, cols - 1);
    let x1 = clamp(max_x, 0, cols - 1);
    let y0 = clamp(min_y, 0, rows - 1);
    let y1 = clamp(max_y, 0, rows - 1);
    if x0 <= x1 {
        lemma_rect_ids_ordered(cols, rows, x0, x1, y0, y1);
        assert(y1 * cols + x1 < rows * cols) by (nonlinear_arith)
            requires
                y1 <= rows - 1,
                x1 < cols,
                0 <= cols,
        ;
    } else {
        assert(rect_ids(cols, x0, x1, y0, y1).len() == 0) by {
            lemma_rect_ids_empty_rows(cols, x0, x1, y0, y1);
        }
    }
}

proof fn lemma_rect_ids_empty_rows(cols: int, x0: int, x1: int, y0: int, y: int)
    requires
        x1 < x0,
    ensures
        rect_ids(cols, x0, x1, y0, y).len() == 0,
    decreases y - y0 + 1,
{
    if y >= y0 {
        lemma_rect_ids_empty_rows(cols, x0, x1, y0, y - 1);
    }
}

/// Viewing distance (metres) and simplification tolerance (centimetres) of
/// detail level `level`: the table runs from full detail to the coarsest
/// level, and levels past its end repeat the last entry.
pub open spec fn lod_entry(level: int) -> (u32, u32) {
    if level <= 0 {
        (50, 5)
    } else if level == 1 {
        (200, 20)
    } else if level == 2 {
        (1000, 100)
    } else if level == 3 {
        (5000, 500)
    } else if level == 4 {
        (20000, 2000)
    } else if level == 5 {
        (100000, 10000)
    } else {
        (500000, 50000)
    }
}

/// The viewing distance and simplification tolerance of each of the first
/// `lod_count` detail levels (see `lod_entry`).
pub fn lod_table(lod_count: usize) -> (t: Vec<(u32, u32)>)
    ensures
        t@.len() == lod_count,
        forall|i: int| 0 <= i < lod_count ==> #[trigger] t@[i] == lod_entry(i),
{
    let mut t: Vec<(u32, u32)> = Vec::new();
    let mut i: usize = 0;
    while i < lod_count
        invariant
            0 <= i <= lod_count,
            t@.len() == i,
            forall|j: int| 0 <= j < i ==> #[trigger] t@[j] == lod_entry(j),
        decreases lod_count - i,
    {
        let e: (u32, u32) = if i == 0 {
            (50, 5)
        } else if i == 1 {
            (200, 20)
        } else if i == 2 {
            (1000, 100)
        } else if i == 3 {
            (5000, 500)
        } else if i == 4 {
            (20000, 2000)
        } else if i == 5 {
            (100000, 10000)
        } else {
            (500000, 50000)
        };
        t.push(e);
        i = i + 1;
    }
    t
}

} // verus!
