//! Scheduling the chunk raster: the windows of chunk rows that are
//! rasterized one after another, and, in each window, which polygons paint
//! which chunk.
use std::collections::HashMap;
use vstd::prelude::*;
use crate::tiles::{max_of, min_of, f_max_x, f_min_x, PolygonChunkBounds, RasterChunkIndex};

verus! {

broadcast use vstd::std_specs::hash::group_hash_axioms;

/// The windows of chunk rows from `from` to `last`, each `rows` rows tall
/// but the last, which stops at `last`.
pub open spec fn windows(from: int, last: int, rows: int) -> Seq<(int, int)>
    decreases last - from + 1,
{
    if from > last || rows < 1 {
        Seq::empty()
    } else {
        let to = if from + rows - 1 < last { from + rows - 1 } else { last };
        seq![(from, to)] + windows(to + 1, last, rows)
    }
}

/// The chunk rows `first_row..=last_row` cut into windows of `window_rows`
/// rows (see `windows`), as pairs of first and last row.
pub fn raster_windows(first_row: i32, last_row: i32, window_rows: usize) -> (w: Vec<(i32, i32)>)
    requires
        window_rows >= 1,
    ensures
        w@.len() == windows(first_row as int, last_row as int, window_rows as int).len(),
        forall|i: int| 0 <= i < w@.len() ==> (#[trigger] w@[i]).0 as int == windows(first_row as int, last_row as int, window_rows as int)[i].0
            && w@[i].1 as int == windows(first_row as int, last_row as int, window_rows as int)[i].1,
{
    let mut w: Vec<(i32, i32)> = Vec::new();
    let mut from: i64 = first_row as i64;
    let ghost all = windows(first_row as int, last_row as int, window_rows as int);
    while from <= last_row as i64
        invariant
            first_row <= from,
            from <= last_row + 1 || from == first_row,
            window_rows >= 1,
            w@.len() + windows(from as int, last_row as int, window_rows as int).len() == all.len(),
            forall|i: int| 0 <= i < w@.len() ==> (#[trigger] w@[i]).0 as int == all[i].0 && w@[i].1 as int == all[i].1,
            forall|i: int| 0 <= i < windows(from as int, last_row as int, window_rows as int).len() ==> #[trigger] windows(from as int, last_row as int, window_rows as int)[i] == all[w@.len() + i],
        decreases last_row + 1 - from,
    {
        let ghost rest = windows(from as int, last_row as int, window_rows as int);
        let remaining: i64 = last_row as i64 - from + 1;
        let to: i64 = if (window_rows as u64) < (remaining as u64) { from + (window_rows as i64) - 1 } else { last_row as i64 };
        assert(rest[0] == (from as int, to as int));
        assert(windows(to + 1, last_row as int, window_rows as int) =~= rest.drop_first());
        let ghost wl = w@.len();
        w.push((from as i32, to as i32));
        assert forall|i: int| 0 <= i < windows(to + 1, last_row as int, window_rows as int).len() implies #[trigger] windows(to + 1, last_row as int, window_rows as int)[i] == all[w@.len() + i] by {
            assert(rest[i + 1] == all[wl + i + 1]);
        }
        from = to + 1;
    }
    w
}

/// The chunk bounds include chunk (`x`, `y`).
pub open spec fn covers(b: PolygonChunkBounds, x: int, y: int) -> bool {
    b.min_chunk_x <= x <= b.max_chunk_x && b.min_chunk_y <= y <= b.max_chunk_y
}

/// The polygons among the first `n` whose chunk bounds include chunk
/// (`x`, `y`), in index order.
pub open spec fn covering(c: Seq<PolygonChunkBounds>, n: nat, x: int, y: int) -> Seq<usize>
    decreases n,
{
    if n == 0 {
        Seq::empty()
    } else {
        let prev = covering(c, (n - 1) as nat, x, y);
        if covers(c[n - 1], x, y) {
            prev.push((n - 1) as usize)
        } else {
            prev
        }
    }
}

/// The chunks of row `y`, columns `lo..=x`, that some polygon covers, each
/// with its polygons.
pub open spec fn row_jobs(c: Seq<PolygonChunkBounds>, y: int, lo: int, x: int) -> Seq<(int, int, Seq<usize>)>
    decreases x - lo + 1,
{
    if x < lo {
        Seq::empty()
    } else {
        let prev = row_jobs(c, y, lo, x - 1);
        let cov = covering(c, c.len(), x, y);
        if cov.len() > 0 {
            prev.push((x, y, cov))
        } else {
            prev
        }
    }
}

/// The covered chunks of rows `y0..=y` and columns `lo..=hi`, row after row,
/// each with its polygons.
pub open spec fn window_jobs(c: Seq<PolygonChunkBounds>, lo: int, hi: int, y0: int, y: int) -> Seq<(int, int, Seq<usize>)>
    decreases y - y0 + 1,
{
    if y < y0 {
        Seq::empty()
    } else {
        window_jobs(c, lo, hi, y0, y - 1) + row_jobs(c, y, lo, hi)
    }
}

/// A chunk to rasterize and the polygons that paint it.
#[derive(Debug)]
pub struct ChunkJob {
    pub chunk_x: i32,
    pub chunk_y: i32,
    pub polygons: Vec<usize>,
}

pub open spec fn job_views(jobs: Seq<ChunkJob>) -> Seq<(int, int, Seq<usize>)> {
    Seq::new(jobs.len(), |i: int| (jobs[i].chunk_x as int, jobs[i].chunk_y as int, jobs[i].polygons@))
}

/// A key of its own for every chunk: rows first, then columns.
pub open spec fn chunk_key(x: int, y: int) -> u64 {
    ((y - i32::MIN) * 4294967296 + (x - i32::MIN)) as u64
}

proof fn lemma_chunk_key_injective(x1: int, y1: int, x2: int, y2: int)
    requires
        i32::MIN <= x1 <= i32::MAX,
        i32::MIN <= y1 <= i32::MAX,
        i32::MIN <= x2 <= i32::MAX,
        i32::MIN <= y2 <= i32::MAX,
        chunk_key(x1, y1) == chunk_key(x2, y2),
    ensures
        x1 == x2 && y1 == y2,
{
    let a1 = y1 - i32::MIN;
    let b1 = x1 - i32::MIN;
    let a2 = y2 - i32::MIN;
    let b2 = x2 - i32::MIN;
    assert(0 <= a1 * 4294967296 + b1 <= u64::MAX);
    assert(0 <= a2 * 4294967296 + b2 <= u64::MAX);
    assert(a1 * 4294967296 + b1 == a2 * 4294967296 + b2);
    if a1 < a2 {
        assert(a1 * 4294967296 + 4294967296 <= a2 * 4294967296);
    } else if a1 > a2 {
        assert(a2 * 4294967296 + 4294967296 <= a1 * 4294967296);
    }
}

fn chunk_key_of(x: i32, y: i32) -> (k: u64)
    ensures
        k == chunk_key(x as int, y as int),
{
    let hy: u64 = (y as i64 - (i32::MIN as i64)) as u64;
    let hx: u64 = (x as i64 - (i32::MIN as i64)) as u64;
    assert(hy * 4294967296 + hx <= u64::MAX);
    hy * 4294967296 + hx
}

/// The map holds, for chunk (`x`, `y`), the first `n` polygons covering it,
/// and no entry when there is none.
pub open spec fn cell_ok(m: Map<u64, Vec<usize>>, c: Seq<PolygonChunkBounds>, n: nat, x: int, y: int) -> bool {
    let k = chunk_key(x, y);
    &&& m.contains_key(k) <==> covering(c, n, x, y).len() > 0
    &&& m.contains_key(k) ==> m[k]@ == covering(c, n, x, y)
}

/// While polygon `p` is being added: the chunks it covers before row `cy`,
/// and before column `cx` on row `cy`, already hold it.
pub open spec fn cell_at(m: Map<u64, Vec<usize>>, c: Seq<PolygonChunkBounds>, p: nat, b: PolygonChunkBounds, cy: int, cx: int, x: int, y: int) -> bool {
    cell_ok(m, c, if covers(b, x, y) && (y < cy || (y == cy && x < cx)) { p + 1 } else { p }, x, y)
}

pub open spec fn in_i32(v: int) -> bool {
    i32::MIN <= v <= i32::MAX
}

/// Adds polygon `p` (chunk bounds `b`) to every chunk of rows
/// `window_min_y..=window_max_y` it covers.
#[verifier::spinoff_prover]
fn add_polygon_chunks(m: &mut HashMap<u64, Vec<usize>>, Ghost(c): Ghost<Seq<PolygonChunkBounds>>, p: usize, b: PolygonChunkBounds, window_min_y: i32, window_max_y: i32)
    requires
        p < c.len(),
        b == c[p as int],
        forall|x: int, y: int| in_i32(x) && window_min_y <= y <= window_max_y ==> #[trigger] cell_ok(old(m)@, c, p as nat, x, y),
    ensures
        forall|x: int, y: int| in_i32(x) && window_min_y <= y <= window_max_y ==> #[trigger] cell_ok(final(m)@, c, (p + 1) as nat, x, y),
{
    if !b.intersects_row_window(window_min_y, window_max_y) {
        proof {
            assert forall|x: int, y: int| in_i32(x) && window_min_y <= y <= window_max_y implies #[trigger] cell_ok(m@, c, (p + 1) as nat, x, y) by {
                assert(cell_ok(m@, c, p as nat, x, y));
                assert(covering(c, (p + 1) as nat, x, y) == covering(c, p as nat, x, y));
            }
        }
        return;
    }
    let ry0: i32 = if b.min_chunk_y > window_min_y { b.min_chunk_y } else { window_min_y };
    let ry1: i32 = if b.max_chunk_y < window_max_y { b.max_chunk_y } else { window_max_y };
    let mut cy: i64 = ry0 as i64;
    proof {
        assert forall|x: int, y: int| in_i32(x) && window_min_y <= y <= window_max_y implies #[trigger] cell_at(m@, c, p as nat, b, cy as int, b.min_chunk_x as int, x, y) by {
            assert(cell_ok(m@, c, p as nat, x, y));
        }
    }
    while cy <= ry1 as i64
        invariant
            p < c.len(),
            b == c[p as int],
            ry0 <= cy,
            cy <= ry1 + 1 || cy == ry0,
            ry0 == (if b.min_chunk_y > window_min_y { b.min_chunk_y } else { window_min_y }),
            ry1 == (if b.max_chunk_y < window_max_y { b.max_chunk_y } else { window_max_y }),
            forall|x: int, y: int| in_i32(x) && window_min_y <= y <= window_max_y ==> #[trigger] cell_at(m@, c, p as nat, b, cy as int, b.min_chunk_x as int, x, y),
        decreases ry1 + 1 - cy,
    {
        let mut cx: i64 = b.min_chunk_x as i64;
        while cx <= b.max_chunk_x as i64
            invariant
                p < c.len(),
                b == c[p as int],
                ry0 <= cy <= ry1,
                ry0 == (if b.min_chunk_y > window_min_y { b.min_chunk_y } else { window_min_y }),
                ry1 == (if b.max_chunk_y < window_max_y { b.max_chunk_y } else { window_max_y }),
                b.min_chunk_x <= cx,
                cx <= b.max_chunk_x + 1 || cx == b.min_chunk_x,
                forall|x: int, y: int| in_i32(x) && window_min_y <= y <= window_max_y ==> #[trigger] cell_at(m@, c, p as nat, b, cy as int, cx as int, x, y),
            decreases b.max_chunk_x + 1 - cx,
        {
            let key = chunk_key_of(cx as i32, cy as i32);
            let ghost m0 = m@;
            assert(cell_at(m0, c, p as nat, b, cy as int, cx as int, cx as int, cy as int));
            let mut list = match m.remove(&key) {
                Some(l) => l,
                None => Vec::new(),
            };
            assert(list@ == covering(c, p as nat, cx as int, cy as int));
            list.push(p);
            m.insert(key, list);
            proof {
                assert(m@ == m0.remove(key).insert(key, list));
                assert forall|x: int, y: int| in_i32(x) && window_min_y <= y <= window_max_y implies #[trigger] cell_at(m@, c, p as nat, b, cy as int, cx + 1, x, y) by {
                    if x == cx && y == cy {
                        assert(covering(c, (p + 1) as nat, x, y) == covering(c, p as nat, x, y).push(p));
                    } else {
                        if chunk_key(x, y) == key {
                            lemma_chunk_key_injective(x, y, cx as int, cy as int);
                        }
                        assert(cell_at(m0, c, p as nat, b, cy as int, cx as int, x, y));
                    }
                }
            }
            cx = cx + 1;
        }
        proof {
            assert forall|x: int, y: int| in_i32(x) && window_min_y <= y <= window_max_y implies #[trigger] cell_at(m@, c, p as nat, b, cy + 1, b.min_chunk_x as int, x, y) by {
                assert(cell_at(m@, c, p as nat, b, cy as int, cx as int, x, y));
            }
        }
        cy = cy + 1;
    }
    proof {
        assert forall|x: int, y: int| in_i32(x) && window_min_y <= y <= window_max_y implies #[trigger] cell_ok(m@, c, (p + 1) as nat, x, y) by {
            assert(cell_at(m@, c, p as nat, b, cy as int, b.min_chunk_x as int, x, y));
            if !covers(b, x, y) {
                assert(covering(c, (p + 1) as nat, x, y) == covering(c, p as nat, x, y));
            }
        }
    }
}

/// Groups the polygons of the index by the chunks of rows
/// `window_min_y..=window_max_y` they cover.
fn group_window_chunks(index: &RasterChunkIndex<impl Copy>, window_min_y: i32, window_max_y: i32) -> (m: HashMap<u64, Vec<usize>>)
    ensures
        forall|x: int, y: int| in_i32(x) && window_min_y <= y <= window_max_y ==> #[trigger] cell_ok(m@, index.chunk_bounds_view(), index.chunk_bounds_view().len(), x, y),
{
    let ghost c = index.chunk_bounds_view();
    let n = index.polygon_count();
    let mut m: HashMap<u64, Vec<usize>> = HashMap::new();
    let mut p: usize = 0;
    while p < n
        invariant
            0 <= p <= n,
            n == c.len(),
            c == index.chunk_bounds_view(),
            forall|x: int, y: int| in_i32(x) && window_min_y <= y <= window_max_y ==> #[trigger] cell_ok(m@, c, p as nat, x, y),
        decreases n - p,
    {
        let b = index.polygon_chunk_bounds(p);
        add_polygon_chunks(&mut m, Ghost(c), p, b, window_min_y, window_max_y);
        let ghost added: nat = (p + 1) as nat;
        p = p + 1;
        proof {
            assert(p as nat == added);
            assert forall|x: int, y: int| in_i32(x) && window_min_y <= y <= window_max_y implies #[trigger] cell_ok(m@, c, p as nat, x, y) by {
                assert(cell_ok(m@, c, added, x, y));
            }
        }
    }
    m
}

/// The chunks of rows `window_min_y..=window_max_y` and of the index's
/// columns that some indexed polygon covers, row after row and column after
/// column, each with the polygons covering it in index order (see
/// `window_jobs`).
pub fn window_chunk_jobs<B: Copy>(index: &RasterChunkIndex<B>, window_min_y: i32, window_max_y: i32) -> (jobs: Vec<ChunkJob>)
    ensures
        job_views(jobs@) == window_jobs(index.chunk_bounds_view(), index.first_col() as int, index.last_col() as int, window_min_y as int, window_max_y as int),
{
    let ghost c = index.chunk_bounds_view();
    let ghost n = c.len();
    let mut m = group_window_chunks(index, window_min_y, window_max_y);
    let (lo, hi) = index.col_range();
    let mut jobs: Vec<ChunkJob> = Vec::new();
    let mut y: i64 = window_min_y as i64;
    assert(job_views(jobs@) =~= window_jobs(c, lo as int, hi as int, window_min_y as int, y - 1));
    while y <= window_max_y as i64
        invariant
            window_min_y <= y,
            y <= window_max_y + 1 || y == window_min_y,
            n == c.len(),
            job_views(jobs@) == window_jobs(c, lo as int, hi as int, window_min_y as int, y - 1),
            forall|x: int, v: int| in_i32(x) && y <= v <= window_max_y ==> #[trigger] cell_ok(m@, c, n, x, v),
        decreases window_max_y + 1 - y,
    {
        let mut x: i64 = lo as i64;
        assert(job_views(jobs@) =~= window_jobs(c, lo as int, hi as int, window_min_y as int, y - 1) + row_jobs(c, y as int, lo as int, x - 1));
        while x <= hi as i64
            invariant
                window_min_y <= y <= window_max_y,
                lo <= x,
                x <= hi + 1 || x == lo,
                n == c.len(),
                job_views(jobs@) == window_jobs(c, lo as int, hi as int, window_min_y as int, y - 1) + row_jobs(c, y as int, lo as int, x - 1),
                forall|u: int, v: int| in_i32(u) && (y < v <= window_max_y || (v == y && u >= x)) ==> #[trigger] cell_ok(m@, c, n, u, v),
            decreases hi + 1 - x,
        {
            let key = chunk_key_of(x as i32, y as i32);
            let ghost m0 = m@;
            let ghost before = job_views(jobs@);
            assert(cell_ok(m0, c, n, x as int, y as int));
            match m.remove(&key) {
                Some(list) => {
                    jobs.push(ChunkJob { chunk_x: x as i32, chunk_y: y as i32, polygons: list });
                    assert(job_views(jobs@) =~= before.push((x as int, y as int, covering(c, n, x as int, y as int))));
                },
                None => {},
            }
            proof {
                assert forall|u: int, v: int| in_i32(u) && (y < v <= window_max_y || (v == y && u >= x + 1)) implies #[trigger] cell_ok(m@, c, n, u, v) by {
                    assert(cell_ok(m0, c, n, u, v));
                    if chunk_key(u, v) == key {
                        lemma_chunk_key_injective(u, v, x as int, y as int);
                    }
                }
            }
            x = x + 1;
        }
        assert(job_views(jobs@) =~= window_jobs(c, lo as int, hi as int, window_min_y as int, y as int));
        y = y + 1;
    }
    jobs
}

/// The index's columns hold every column that an indexed polygon covers.
pub proof fn lemma_index_columns_cover<B: Copy>(index: RasterChunkIndex<B>, c: Seq<PolygonChunkBounds>, p: int)
    requires
        c.len() > 0,
        0 <= p < c.len(),
        index.first_col() == min_of(c, c.len(), f_min_x()),
        index.last_col() == max_of(c, c.len(), f_max_x()),
    ensures
        index.first_col() <= c[p].min_chunk_x,
        c[p].max_chunk_x <= index.last_col(),
{
    lemma_min_of_le(c, c.len(), p);
    lemma_max_of_ge(c, c.len(), p);
}

proof fn lemma_min_of_le(c: Seq<PolygonChunkBounds>, n: nat, p: int)
    requires
        0 <= p < n <= c.len(),
    ensures
        min_of(c, n, f_min_x()) <= c[p].min_chunk_x,
    decreases n,
{
    if p < n - 1 {
        lemma_min_of_le(c, (n - 1) as nat, p);
    }
}

proof fn lemma_max_of_ge(c: Seq<PolygonChunkBounds>, n: nat, p: int)
    requires
        0 <= p < n <= c.len(),
    ensures
        max_of(c, n, f_max_x()) >= c[p].max_chunk_x,
    decreases n,
{
    if p < n - 1 {
        lemma_max_of_ge(c, (n - 1) as nat, p);
    }
}

proof fn lemma_row_jobs_complete(c: Seq<PolygonChunkBounds>, y: int, lo: int, x: int, cx: int)
    requires
        lo <= cx <= x,
        covering(c, c.len(), cx, y).len() > 0,
    ensures
        row_jobs(c, y, lo, x).contains((cx, y, covering(c, c.len(), cx, y))),
    decreases x - lo + 1,
{
    let prev = row_jobs(c, y, lo, x - 1);
    if cx == x {
        let job = (x, y, covering(c, c.len(), x, y));
        assert(row_jobs(c, y, lo, x) == prev.push(job));
        assert(prev.push(job)[prev.len() as int] == job);
    } else {
        lemma_row_jobs_complete(c, y, lo, x - 1, cx);
        let k = choose|k: int| 0 <= k < prev.len() && prev[k] == (cx, y, covering(c, c.len(), cx, y));
        let cov = covering(c, c.len(), x, y);
        if cov.len() > 0 {
            assert(prev.push((x, y, cov))[k] == prev[k]);
        }
    }
}

proof fn lemma_window_jobs_complete(c: Seq<PolygonChunkBounds>, lo: int, hi: int, y0: int, y: int, cx: int, cy: int)
    requires
        lo <= cx <= hi,
        y0 <= cy <= y,
        covering(c, c.len(), cx, cy).len() > 0,
    ensures
        window_jobs(c, lo, hi, y0, y).contains((cx, cy, covering(c, c.len(), cx, cy))),
    decreases y - y0 + 1,
{
    let prev = window_jobs(c, lo, hi, y0, y - 1);
    let row = row_jobs(c, y, lo, hi);
    let job = (cx, cy, covering(c, c.len(), cx, cy));
    assert(window_jobs(c, lo, hi, y0, y) == prev + row);
    if cy == y {
        lemma_row_jobs_complete(c, y, lo, hi, cx);
        let k = choose|k: int| 0 <= k < row.len() && row[k] == job;
        assert((prev + row)[prev.len() + k] == job);
    } else {
        lemma_window_jobs_complete(c, lo, hi, y0, y - 1, cx, cy);
        let k = choose|k: int| 0 <= k < prev.len() && prev[k] == job;
        assert((prev + row)[k] == job);
    }
}

/// Law: when the index was built from these chunk bounds, every chunk of a
/// window that some polygon covers is one of the window's jobs, with exactly
/// the polygons that cover it.
pub proof fn lemma_window_covers_every_chunk<B: Copy>(index: RasterChunkIndex<B>, window_min_y: int, window_max_y: int, x: int, y: int)
    requires
        0 < index.chunk_bounds_view().len() <= usize::MAX,
        index.first_col() == min_of(index.chunk_bounds_view(), index.chunk_bounds_view().len(), f_min_x()),
        index.last_col() == max_of(index.chunk_bounds_view(), index.chunk_bounds_view().len(), f_max_x()),
        window_min_y <= y <= window_max_y,
        covering(index.chunk_bounds_view(), index.chunk_bounds_view().len(), x, y).len() > 0,
    ensures
        window_jobs(index.chunk_bounds_view(), index.first_col() as int, index.last_col() as int, window_min_y, window_max_y).contains(
            (x, y, covering(index.chunk_bounds_view(), index.chunk_bounds_view().len(), x, y)),
        ),
{
    let c = index.chunk_bounds_view();
    let cov = covering(c, c.len(), x, y);
    let p = cov[0] as int;
    lemma_covering_members(c, c.len(), x, y);
    lemma_index_columns_cover(index, c, p);
    lemma_window_jobs_complete(c, index.first_col() as int, index.last_col() as int, window_min_y, window_max_y, x, y);
}

/// Every polygon listed for a chunk is one of the first `n` and covers it.
pub proof fn lemma_covering_members(c: Seq<PolygonChunkBounds>, n: nat, x: int, y: int)
    requires
        n <= c.len(),
        c.len() <= usize::MAX,
    ensures
        forall|i: int| 0 <= i < covering(c, n, x, y).len() ==> {
            let p = #[trigger] covering(c, n, x, y)[i];
            p < n && covers(c[p as int], x, y)
        },
    decreases n,
{
    if n > 0 {
        lemma_covering_members(c, (n - 1) as nat, x, y);
        let prev = covering(c, (n - 1) as nat, x, y);
        let cur = covering(c, n, x, y);
        assert forall|i: int| 0 <= i < cur.len() implies {
            let p = #[trigger] cur[i];
            p < n && covers(c[p as int], x, y)
        } by {
            if i < prev.len() {
                assert(cur[i] == prev[i]);
            }
        }
    }
}

/// Law: the windows cut rows `from..=last` into consecutive, non-empty runs
/// of at most `rows` rows, the first starting at `from` and the last ending
/// at `last`.
pub proof fn lemma_windows_partition(from: int, last: int, rows: int)
    requires
        rows >= 1,
        from <= last,
    ensures
        windows(from, last, rows).len() > 0,
        windows(from, last, rows)[0].0 == from,
        windows(from, last, rows).last().1 == last,
        forall|i: int| 0 <= i < windows(from, last, rows).len() ==> {
            let w = #[trigger] windows(from, last, rows)[i];
            w.0 <= w.1 && w.1 - w.0 < rows
        },
        forall|i: int| 0 <= i < windows(from, last, rows).len() - 1 ==> #[trigger] windows(from, last, rows)[i + 1].0 == windows(from, last, rows)[i].1 + 1,
    decreases last - from + 1,
{
    let to = if from + rows - 1 < last { from + rows - 1 } else { last };
    let rest = windows(to + 1, last, rows);
    let all = windows(from, last, rows);
    assert(all == seq![(from, to)] + rest);
    if to < last {
        lemma_windows_partition(to + 1, last, rows);
        assert forall|i: int| 0 <= i < all.len() implies {
            let w = #[trigger] all[i];
            w.0 <= w.1 && w.1 - w.0 < rows
        } by {
            if i > 0 {
                assert(all[i] == rest[i - 1]);
            }
        }
        assert forall|i: int| 0 <= i < all.len() - 1 implies #[trigger] all[i + 1].0 == all[i].1 + 1 by {
            assert(all[i + 1] == rest[i]);
            if i > 0 {
                assert(all[i] == rest[i - 1]);
                let j = i - 1;
                assert(rest[j + 1].0 == rest[j].1 + 1);
            } else {
                assert(rest[0].0 == to + 1);
            }
        }
        assert(all.last() == rest.last());
    } else {
        assert(rest.len() == 0);
        assert(all.len() == 1);
    }
}

} // verus!
