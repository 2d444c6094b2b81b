//! Which parent tiles the streamed pyramid emits: every coarser tile of the
//! playable tiles it received, each exactly once, and nothing else.
use vstd::prelude::*;
use crate::reducer::{cascade, emit_row, feed_level, finish_levels, spread, tag_tiles, half_floor, level_finish, level_flush, level_ingest, parent_column, parent_columns, upper_row, LevelState};
use crate::row_order::{all_in_row, lemma_cascade_ordered, lemma_feed_same_row, lemma_finish_level_rows, level_ok, linked_at, ordered_from, rows_nondecreasing};
use crate::sorted::increasing_i32;

verus! {

/// The tile one zoom level coarser that covers tile `k`.
pub open spec fn parent_key(k: (i32, i32)) -> (i32, i32) {
    (half_floor(k.0), half_floor(k.1))
}

/// The column and row of the tiles, as a set.
pub open spec fn tile_keys(t: Seq<(i32, i32, Seq<u8>)>) -> Set<(i32, i32)> {
    Set::new(|k: (i32, i32)| exists|i: int| 0 <= i < t.len() && (#[trigger] t[i]).0 == k.0 && t[i].1 == k.1)
}

/// No two of the tiles share a column and row.
pub open spec fn keys_distinct(t: Seq<(i32, i32, Seq<u8>)>) -> bool {
    forall|i: int, j: int| 0 <= i < j < t.len() ==> !((#[trigger] t[i]).0 == (#[trigger] t[j]).0 && t[i].1 == t[j].1)
}

proof fn lemma_half_of_double(b: i32)
    requires
        -0x4000_0000 <= b < 0x4000_0000,
    ensures
        half_floor((2 * b) as i32) == b,
        half_floor((2 * b + 1) as i32) == b,
        upper_row((2 * b) as i32),
        !upper_row((2 * b + 1) as i32),
{
    assert((2 * (b as int)) / 2 == b as int);
    assert((2 * (b as int) + 1) / 2 == b as int);
    assert((2 * (b as int)) % 2 == 0);
    assert((2 * (b as int) + 1) % 2 == 1);
}

proof fn lemma_half_range(c: i32)
    ensures
        -0x4000_0000 <= half_floor(c) < 0x4000_0000,
        upper_row(c) ==> c as int == 2 * half_floor(c),
        !upper_row(c) ==> c as int == 2 * half_floor(c) + 1,
{
    assert((c as int) == 2 * ((c as int) / 2) + (c as int) % 2);
}

/// Two rows of one parent row, the first above the second: the first is its
/// upper child row and the second its lower one.
proof fn lemma_same_parent_rows(c: i32, y: i32)
    requires
        c < y,
        half_floor(c) == half_floor(y),
    ensures
        upper_row(c),
        !upper_row(y),
{
    lemma_half_range(c);
    lemma_half_range(y);
}

proof fn lemma_half_mono(x: i32, y: i32)
    requires
        x <= y,
    ensures
        half_floor(x) <= half_floor(y),
{
    assert((x as int) / 2 <= (y as int) / 2);
}

/// Adds `v` to an ascending sequence.
proof fn lemma_insert_increasing(xs: Seq<i32>, v: i32) -> (ys: Seq<i32>)
    requires
        increasing_i32(xs),
    ensures
        increasing_i32(ys),
        forall|p: i32| #[trigger] ys.contains(p) <==> (xs.contains(p) || p == v),
    decreases xs.len(),
{
    if xs.len() == 0 {
        let ys = seq![v];
        assert forall|p: i32| #[trigger] ys.contains(p) <==> (xs.contains(p) || p == v) by {
            if p == v {
                assert(ys[0] == v);
            }
        }
        ys
    } else {
        let last = xs.last();
        let pre = xs.drop_last();
        assert(xs =~= pre.push(last));
        assert(increasing_i32(pre)) by {
            assert forall|i: int, j: int| 0 <= i < j < pre.len() implies pre[i] < pre[j] by {
                assert(pre[i] == xs[i] && pre[j] == xs[j]);
            }
        }
        assert forall|p: i32| #[trigger] xs.contains(p) <==> (pre.contains(p) || p == last) by {
            if xs.contains(p) {
                let i = choose|i: int| 0 <= i < xs.len() && xs[i] == p;
                if i < pre.len() {
                    assert(pre[i] == p);
                }
            }
            if pre.contains(p) {
                let i = choose|i: int| 0 <= i < pre.len() && pre[i] == p;
                assert(xs[i] == p);
            }
            if p == last {
                assert(xs[xs.len() - 1] == p);
            }
        }
        if last < v {
            let ys = xs.push(v);
            assert forall|i: int, j: int| 0 <= i < j < ys.len() implies ys[i] < ys[j] by {
                if j == xs.len() {
                    if i < xs.len() - 1 {
                        assert(xs[i] < xs[xs.len() - 1]);
                    }
                } else {
                    assert(ys[i] == xs[i] && ys[j] == xs[j]);
                }
            }
            assert forall|p: i32| #[trigger] ys.contains(p) <==> (xs.contains(p) || p == v) by {
                if ys.contains(p) {
                    let i = choose|i: int| 0 <= i < ys.len() && ys[i] == p;
                    if i < xs.len() {
                        assert(xs[i] == p);
                    }
                }
                if xs.contains(p) {
                    let i = choose|i: int| 0 <= i < xs.len() && xs[i] == p;
                    assert(ys[i] == p);
                }
                if p == v {
                    assert(ys[xs.len() as int] == p);
                }
            }
            ys
        } else if last == v {
            xs
        } else {
            let r = lemma_insert_increasing(pre, v);
            let ys = r.push(last);
            assert forall|i: int| 0 <= i < r.len() implies r[i] < last by {
                assert(r.contains(r[i]));
                if r[i] != v {
                    let k = choose|k: int| 0 <= k < pre.len() && pre[k] == r[i];
                    assert(xs[k] < xs[xs.len() - 1]);
                }
            }
            assert forall|i: int, j: int| 0 <= i < j < ys.len() implies ys[i] < ys[j] by {
                if j == r.len() {
                    assert(ys[i] == r[i]);
                } else {
                    assert(ys[i] == r[i] && ys[j] == r[j]);
                }
            }
            assert forall|p: i32| #[trigger] ys.contains(p) <==> (xs.contains(p) || p == v) by {
                if ys.contains(p) {
                    let i = choose|i: int| 0 <= i < ys.len() && ys[i] == p;
                    if i < r.len() {
                        assert(r[i] == p);
                        assert(r.contains(p));
                    }
                }
                if r.contains(p) {
                    let i = choose|i: int| 0 <= i < r.len() && r[i] == p;
                    assert(ys[i] == p);
                }
                if p == last {
                    assert(ys[r.len() as int] == p);
                }
            }
            ys
        }
    }
}

/// The parent columns of the first `i` tiles of `even` and the first `j`
/// tiles of `odd`, ascending.
proof fn lemma_columns_prefix(even: Seq<(i32, Seq<u8>)>, odd: Seq<(i32, Seq<u8>)>, i: int, j: int) -> (xs: Seq<i32>)
    requires
        0 <= i <= even.len(),
        0 <= j <= odd.len(),
    ensures
        increasing_i32(xs),
        forall|p: i32| #[trigger] xs.contains(p) <==> ((exists|k: int| 0 <= k < i && half_floor(#[trigger] even[k].0) == p) || (exists|k: int|
            0 <= k < j && half_floor(#[trigger] odd[k].0) == p)),
    decreases i + j,
{
    if j > 0 {
        let r = lemma_columns_prefix(even, odd, i, j - 1);
        let v = half_floor(odd[j - 1].0);
        let ys = lemma_insert_increasing(r, v);
        assert forall|p: i32| #[trigger] ys.contains(p) <==> ((exists|k: int| 0 <= k < i && half_floor(#[trigger] even[k].0) == p) || (exists|k: int|
            0 <= k < j && half_floor(#[trigger] odd[k].0) == p)) by {
            if exists|k: int| 0 <= k < j && half_floor(#[trigger] odd[k].0) == p {
                let k = choose|k: int| 0 <= k < j && half_floor(#[trigger] odd[k].0) == p;
                if k < j - 1 {
                    assert(r.contains(p));
                }
            }
        }
        ys
    } else if i > 0 {
        let r = lemma_columns_prefix(even, odd, i - 1, 0);
        let v = half_floor(even[i - 1].0);
        let ys = lemma_insert_increasing(r, v);
        assert forall|p: i32| #[trigger] ys.contains(p) <==> ((exists|k: int| 0 <= k < i && half_floor(#[trigger] even[k].0) == p) || (exists|k: int|
            0 <= k < j && half_floor(#[trigger] odd[k].0) == p)) by {
            if exists|k: int| 0 <= k < i && half_floor(#[trigger] even[k].0) == p {
                let k = choose|k: int| 0 <= k < i && half_floor(#[trigger] even[k].0) == p;
                if k < i - 1 {
                    assert(r.contains(p));
                }
            }
        }
        ys
    } else {
        Seq::empty()
    }
}

/// `parent_columns` is ascending and holds exactly the parent columns.
proof fn lemma_parent_columns(even: Seq<(i32, Seq<u8>)>, odd: Seq<(i32, Seq<u8>)>)
    ensures
        increasing_i32(parent_columns(even, odd)),
        forall|p: i32| #[trigger] parent_columns(even, odd).contains(p) <==> parent_column(even, odd, p),
{
    let xs = lemma_columns_prefix(even, odd, even.len() as int, odd.len() as int);
    assert(increasing_i32(xs) && forall|p: i32| #[trigger] xs.contains(p) <==> parent_column(even, odd, p));
}

/// The parent row `b` holds each parent column of its child rows once, and
/// nothing else.
proof fn lemma_emit_row_keys(even: Seq<(i32, Seq<u8>)>, odd: Seq<(i32, Seq<u8>)>, b: i32, side: int, zoom: u8)
    ensures
        keys_distinct(emit_row(even, odd, b, side, zoom)),
        forall|k: (i32, i32)| #[trigger] tile_keys(emit_row(even, odd, b, side, zoom)).contains(k) <==> (k.1 == b && parent_column(even, odd, k.0)),
        forall|i: int| 0 <= i < emit_row(even, odd, b, side, zoom).len() ==> (#[trigger] emit_row(even, odd, b, side, zoom)[i]).1 == b,
{
    let out = emit_row(even, odd, b, side, zoom);
    if even.len() == 0 && odd.len() == 0 {
        assert forall|k: (i32, i32)| #[trigger] tile_keys(out).contains(k) <==> (k.1 == b && parent_column(even, odd, k.0)) by {}
    } else {
        lemma_parent_columns(even, odd);
        let xs = parent_columns(even, odd);
        assert forall|k: (i32, i32)| #[trigger] tile_keys(out).contains(k) <==> (k.1 == b && parent_column(even, odd, k.0)) by {
            if tile_keys(out).contains(k) {
                let i = choose|i: int| 0 <= i < out.len() && (#[trigger] out[i]).0 == k.0 && out[i].1 == k.1;
                assert(xs.contains(xs[i]));
            }
            if k.1 == b && parent_column(even, odd, k.0) {
                assert(xs.contains(k.0));
                let i = choose|i: int| 0 <= i < xs.len() && xs[i] == k.0;
                assert(out[i].0 == k.0 && out[i].1 == k.1);
            }
        }
    }
}

/// A level that has received nothing, or has finished.
pub open spec fn empty_level() -> LevelState {
    LevelState { current_y: None, current: Seq::empty(), active: None, even: Seq::empty(), odd: Seq::empty() }
}

/// Some tile of the row sits in column `x`.
pub open spec fn row_has(r: Seq<(i32, Seq<u8>)>, x: i32) -> bool {
    exists|i: int| 0 <= i < r.len() && (#[trigger] r[i]).0 == x
}

/// Tile `k` is held in a child row of the parent row being built.
pub open spec fn held(s: LevelState, k: (i32, i32)) -> bool {
    s.active matches Some(b) && ((k.1 as int == 2 * b && row_has(s.even, k.0)) || (k.1 as int == 2 * b + 1 && row_has(s.odd, k.0)))
}

/// Tile `k` is held by the level: in the row being received, or in a child
/// row of the parent row being built.
pub open spec fn stored(s: LevelState, k: (i32, i32)) -> bool {
    (s.current_y == Some(k.1) && row_has(s.current, k.0)) || held(s, k)
}

/// Level state `s` has received the tiles `f` and emitted the parents `e`:
/// each received tile is still held or its parent was emitted, each emitted
/// parent covers a received tile, and the emitted parents all lie above the
/// rows still held.
pub open spec fn level_inv(s: LevelState, f: Set<(i32, i32)>, e: Set<(i32, i32)>) -> bool {
    &&& level_ok(s)
    &&& s.current_y is None ==> s.current.len() == 0 && s.even.len() == 0 && s.odd.len() == 0
    &&& s.active is None ==> s.even.len() == 0 && s.odd.len() == 0
    &&& s.active matches Some(b) ==> -0x4000_0000 <= b < 0x4000_0000
    &&& s.active matches Some(b) ==> (s.current_y matches Some(c) ==> (half_floor(c) == b ==> (!upper_row(c) && s.odd.len() == 0)))
    &&& forall|k: (i32, i32)| #[trigger] stored(s, k) ==> f.contains(k)
    &&& forall|k: (i32, i32)| #[trigger] f.contains(k) ==> stored(s, k) || e.contains(parent_key(k))
    &&& forall|p: (i32, i32)| #[trigger] e.contains(p) ==> exists|k: (i32, i32)| #[trigger] f.contains(k) && p == parent_key(k)
    &&& forall|p: (i32, i32)| #[trigger] e.contains(p) ==> (s.active matches Some(b) ==> p.1 < b) && (s.current_y matches Some(c) ==> p.1 < half_floor(c))
}

/// A level that receives nothing has received nothing yet.
pub open spec fn unfinished(s: LevelState, f: Set<(i32, i32)>) -> bool {
    s.current_y is None ==> f == Set::<(i32, i32)>::empty()
}

proof fn lemma_row_has_push(r: Seq<(i32, Seq<u8>)>, x: i32, cells: Seq<u8>)
    ensures
        forall|x2: i32| #[trigger] row_has(r.push((x, cells)), x2) <==> (row_has(r, x2) || x2 == x),
{
    let r2 = r.push((x, cells));
    assert forall|x2: i32| #[trigger] row_has(r2, x2) <==> (row_has(r, x2) || x2 == x) by {
        if row_has(r2, x2) {
            let i = choose|i: int| 0 <= i < r2.len() && (#[trigger] r2[i]).0 == x2;
            if i < r.len() {
                assert(r[i] == r2[i]);
            }
        }
        if row_has(r, x2) {
            let i = choose|i: int| 0 <= i < r.len() && (#[trigger] r[i]).0 == x2;
            assert(r2[i] == r[i]);
        }
        if x2 == x {
            assert(r2[r.len() as int].0 == x2);
        }
    }
}

/// Parent columns are the halves of held columns.
proof fn lemma_parent_column_witness(even: Seq<(i32, Seq<u8>)>, odd: Seq<(i32, Seq<u8>)>, px: i32)
    requires
        parent_column(even, odd, px),
    ensures
        exists|x: i32| (row_has(even, x) || row_has(odd, x)) && #[trigger] half_floor(x) == px,
{
    if exists|i: int| 0 <= i < even.len() && half_floor(#[trigger] even[i].0) == px {
        let i = choose|i: int| 0 <= i < even.len() && half_floor(#[trigger] even[i].0) == px;
        assert(row_has(even, even[i].0));
    } else {
        let i = choose|i: int| 0 <= i < odd.len() && half_floor(#[trigger] odd[i].0) == px;
        assert(row_has(odd, odd[i].0));
    }
}

proof fn lemma_parent_column_of(even: Seq<(i32, Seq<u8>)>, odd: Seq<(i32, Seq<u8>)>, x: i32)
    requires
        row_has(even, x) || row_has(odd, x),
    ensures
        parent_column(even, odd, half_floor(x)),
{
    if row_has(even, x) {
        let i = choose|i: int| 0 <= i < even.len() && (#[trigger] even[i]).0 == x;
        assert(half_floor(even[i].0) == half_floor(x));
    } else {
        let i = choose|i: int| 0 <= i < odd.len() && (#[trigger] odd[i]).0 == x;
        assert(half_floor(odd[i].0) == half_floor(x));
    }
}

/// Closing the row being received: what the level emits then, and where the
/// received tiles stand afterwards.
proof fn lemma_flush_keys(s: LevelState, f: Set<(i32, i32)>, e: Set<(i32, i32)>, side: int, zoom: u8)
    requires
        level_inv(s, f, e),
        s.current_y is Some,
    ensures
        ({
            let c = s.current_y->Some_0;
            let py = half_floor(c);
            let r = level_flush(s, side, zoom);
            let e1 = e.union(tile_keys(r.1));
            &&& r.0.current_y is None
            &&& r.0.current.len() == 0
            &&& r.0.active == Some(py)
            &&& -0x4000_0000 <= py < 0x4000_0000
            &&& keys_distinct(r.1)
            &&& forall|k: (i32, i32)| #[trigger] tile_keys(r.1).contains(k) ==> !e.contains(k)
            &&& forall|p: (i32, i32)| #[trigger] e1.contains(p) ==> p.1 < py && exists|k: (i32, i32)| #[trigger] f.contains(k) && p == parent_key(k)
            &&& forall|k: (i32, i32)| #[trigger] held(r.0, k) ==> f.contains(k)
            &&& forall|k: (i32, i32)| #[trigger] f.contains(k) ==> held(r.0, k) || e1.contains(parent_key(k))
            &&& upper_row(c) ==> r.0.odd.len() == 0
        }),
{
    let c = s.current_y->Some_0;
    let py = half_floor(c);
    let r = level_flush(s, side, zoom);
    let e1 = e.union(tile_keys(r.1));
    lemma_half_range(c);
    let switch = s.active is Some && s.active != Some(py);
    if switch {
        let b = s.active->Some_0;
        lemma_emit_row_keys(s.even, s.odd, b, side, zoom);
        lemma_half_of_double(b);
        assert(r.1 == emit_row(s.even, s.odd, b, side, zoom));
        assert forall|p: (i32, i32)| #[trigger] e1.contains(p) implies p.1 < py && exists|k: (i32, i32)| #[trigger] f.contains(k) && p == parent_key(k) by {
            if tile_keys(r.1).contains(p) {
                lemma_parent_column_witness(s.even, s.odd, p.0);
                let x = choose|x: i32| (row_has(s.even, x) || row_has(s.odd, x)) && #[trigger] half_floor(x) == p.0;
                let k: (i32, i32) = if row_has(s.even, x) { (x, (2 * b) as i32) } else { (x, (2 * b + 1) as i32) };
                assert(held(s, k));
                assert(stored(s, k));
                assert(f.contains(k) && p == parent_key(k));
            }
        }
        assert forall|k: (i32, i32)| #[trigger] f.contains(k) implies held(r.0, k) || e1.contains(parent_key(k)) by {
            if stored(s, k) {
                if s.current_y == Some(k.1) && row_has(s.current, k.0) {
                    assert(held(r.0, k));
                } else {
                    assert(held(s, k));
                    lemma_parent_column_of(s.even, s.odd, k.0);
                    assert(half_floor(k.1) == b);
                    assert(tile_keys(r.1).contains(parent_key(k)));
                }
            }
        }
        assert forall|k: (i32, i32)| #[trigger] held(r.0, k) implies f.contains(k) by {
            assert(stored(s, k));
        }
    } else {
        assert(r.1 =~= Seq::<(i32, i32, Seq<u8>)>::empty());
        assert(tile_keys(r.1) =~= Set::<(i32, i32)>::empty());
        assert(e1 =~= e);
        assert forall|k: (i32, i32)| #[trigger] f.contains(k) implies held(r.0, k) || e1.contains(parent_key(k)) by {
            if stored(s, k) {
                if s.current_y == Some(k.1) && row_has(s.current, k.0) {
                    assert(held(r.0, k));
                } else {
                    assert(held(s, k));
                    assert(held(r.0, k));
                }
            }
        }
        assert forall|k: (i32, i32)| #[trigger] held(r.0, k) implies f.contains(k) by {
            assert(stored(s, k));
        }
    }
}

proof fn lemma_tile_keys_concat(a: Seq<(i32, i32, Seq<u8>)>, b: Seq<(i32, i32, Seq<u8>)>)
    ensures
        tile_keys(a + b) == tile_keys(a).union(tile_keys(b)),
        keys_distinct(a) && keys_distinct(b) && (forall|k: (i32, i32)| #[trigger] tile_keys(b).contains(k) ==> !tile_keys(a).contains(k))
            ==> keys_distinct(a + b),
{
    let ab = a + b;
    assert forall|k: (i32, i32)| #[trigger] tile_keys(ab).contains(k) <==> tile_keys(a).union(tile_keys(b)).contains(k) by {
        if tile_keys(ab).contains(k) {
            let i = choose|i: int| 0 <= i < ab.len() && (#[trigger] ab[i]).0 == k.0 && ab[i].1 == k.1;
            if i < a.len() {
                assert(a[i] == ab[i]);
            } else {
                assert(b[i - a.len()] == ab[i]);
            }
        }
        if tile_keys(a).contains(k) {
            let i = choose|i: int| 0 <= i < a.len() && (#[trigger] a[i]).0 == k.0 && a[i].1 == k.1;
            assert(ab[i] == a[i]);
        }
        if tile_keys(b).contains(k) {
            let i = choose|i: int| 0 <= i < b.len() && (#[trigger] b[i]).0 == k.0 && b[i].1 == k.1;
            assert(ab[i + a.len()] == b[i]);
        }
    }
    assert(tile_keys(ab) =~= tile_keys(a).union(tile_keys(b)));
    if keys_distinct(a) && keys_distinct(b) && (forall|k: (i32, i32)| #[trigger] tile_keys(b).contains(k) ==> !tile_keys(a).contains(k)) {
        assert forall|i: int, j: int| 0 <= i < j < ab.len() implies !((#[trigger] ab[i]).0 == (#[trigger] ab[j]).0 && ab[i].1 == ab[j].1) by {
            if j < a.len() {
                assert(ab[i] == a[i] && ab[j] == a[j]);
            } else if i >= a.len() {
                assert(ab[i] == b[i - a.len()] && ab[j] == b[j - a.len()]);
            } else {
                assert(ab[i] == a[i] && ab[j] == b[j - a.len()]);
                if ab[i].0 == ab[j].0 && ab[i].1 == ab[j].1 {
                    let k = (ab[j].0, ab[j].1);
                    assert(tile_keys(b).contains(k));
                    assert(tile_keys(a).contains(k));
                }
            }
        }
    }
}

proof fn lemma_tile_keys_empty()
    ensures
        tile_keys(Seq::<(i32, i32, Seq<u8>)>::empty()) == Set::<(i32, i32)>::empty(),
        keys_distinct(Seq::<(i32, i32, Seq<u8>)>::empty()),
{
    assert(tile_keys(Seq::<(i32, i32, Seq<u8>)>::empty()) =~= Set::<(i32, i32)>::empty());
}

proof fn lemma_tile_keys_one(t: (i32, i32, Seq<u8>))
    ensures
        tile_keys(seq![t]) == Set::<(i32, i32)>::empty().insert((t.0, t.1)),
        keys_distinct(seq![t]),
{
    let one = seq![t];
    assert forall|k: (i32, i32)| #[trigger] tile_keys(one).contains(k) <==> k == (t.0, t.1) by {
        if k == (t.0, t.1) {
            assert(one[0] == t);
        }
    }
    assert(tile_keys(one) =~= Set::<(i32, i32)>::empty().insert((t.0, t.1)));
}

/// One tile received by a level, at or below the row it receives.
proof fn lemma_ingest_keys(s: LevelState, f: Set<(i32, i32)>, e: Set<(i32, i32)>, x: i32, y: i32, cells: Seq<u8>, side: int, zoom: u8)
    requires
        level_inv(s, f, e),
        unfinished(s, f),
        s.current_y matches Some(c) ==> c <= y,
    ensures
        level_ingest(s, x, y, cells, side, zoom) matches Some(r) && {
            &&& level_inv(r.0, f.insert((x, y)), e.union(tile_keys(r.1)))
            &&& r.0.current_y == Some(y)
            &&& keys_distinct(r.1)
            &&& forall|k: (i32, i32)| #[trigger] tile_keys(r.1).contains(k) ==> !e.contains(k)
        },
{
    let f2 = f.insert((x, y));
    lemma_row_has_push(s.current, x, cells);
    match s.current_y {
        None => {
            assert(f == Set::<(i32, i32)>::empty());
            assert forall|p: (i32, i32)| #[trigger] e.contains(p) implies false by {
                let k = choose|k: (i32, i32)| #[trigger] f.contains(k) && p == parent_key(k);
            }
            let r = level_ingest(s, x, y, cells, side, zoom)->Some_0;
            lemma_tile_keys_empty();
            assert(r.1 =~= Seq::<(i32, i32, Seq<u8>)>::empty());
            assert(e.union(tile_keys(r.1)) =~= e);
            assert forall|k: (i32, i32)| #[trigger] stored(r.0, k) implies f2.contains(k) by {
                assert(row_has(s.current.push((x, cells)), k.0));
            }
            assert forall|k: (i32, i32)| #[trigger] f2.contains(k) implies stored(r.0, k) || e.contains(parent_key(k)) by {
                assert(k == (x, y));
                assert(row_has(s.current.push((x, cells)), x));
            }
        },
        Some(c) => {
            if y == c {
                let r = level_ingest(s, x, y, cells, side, zoom)->Some_0;
                lemma_tile_keys_empty();
                assert(r.1 =~= Seq::<(i32, i32, Seq<u8>)>::empty());
                assert(e.union(tile_keys(r.1)) =~= e);
                assert forall|k: (i32, i32)| #[trigger] stored(r.0, k) implies f2.contains(k) by {
                    if k != (x, y) {
                        assert(stored(s, k));
                    }
                }
                assert forall|k: (i32, i32)| #[trigger] f2.contains(k) implies stored(r.0, k) || e.contains(parent_key(k)) by {
                    if k != (x, y) {
                        assert(f.contains(k));
                        if stored(s, k) {
                            assert(stored(r.0, k));
                        }
                    } else {
                        assert(row_has(s.current.push((x, cells)), x));
                    }
                }
                assert forall|p: (i32, i32)| #[trigger] e.contains(p) implies exists|k: (i32, i32)| #[trigger] f2.contains(k) && p == parent_key(k) by {
                    let k = choose|k: (i32, i32)| #[trigger] f.contains(k) && p == parent_key(k);
                    assert(f2.contains(k));
                }
            } else {
                lemma_flush_keys(s, f, e, side, zoom);
                let fl = level_flush(s, side, zoom);
                let py = half_floor(c);
                let e1 = e.union(tile_keys(fl.1));
                let r = level_ingest(s, x, y, cells, side, zoom)->Some_0;
                assert(r.1 == fl.1);
                assert(r.0 == LevelState { current_y: Some(y), current: fl.0.current.push((x, cells)), ..fl.0 });
                lemma_row_has_push(fl.0.current, x, cells);
                lemma_half_mono(c, y);
                if half_floor(y) == py {
                    lemma_same_parent_rows(c, y);
                }
                assert forall|k: (i32, i32)| #[trigger] stored(r.0, k) implies f2.contains(k) by {
                    if held(r.0, k) {
                        assert(held(fl.0, k));
                    } else {
                        assert(row_has(fl.0.current.push((x, cells)), k.0));
                        assert(k == (x, y));
                    }
                }
                assert forall|k: (i32, i32)| #[trigger] f2.contains(k) implies stored(r.0, k) || e1.contains(parent_key(k)) by {
                    if k != (x, y) {
                        assert(f.contains(k));
                        if held(fl.0, k) {
                            assert(held(r.0, k));
                        }
                    } else {
                        assert(row_has(fl.0.current.push((x, cells)), x));
                    }
                }
                assert forall|p: (i32, i32)| #[trigger] e1.contains(p) implies exists|k: (i32, i32)| #[trigger] f2.contains(k) && p == parent_key(k) by {
                    let k = choose|k: (i32, i32)| #[trigger] f.contains(k) && p == parent_key(k);
                    assert(f2.contains(k));
                }
                assert forall|p: (i32, i32)| #[trigger] e1.contains(p) implies (r.0.active matches Some(b) ==> p.1 < b) && (r.0.current_y matches Some(c2) ==> p.1 < half_floor(c2)) by {
                    assert(p.1 < py);
                }
            }
        },
    }
}

/// Tiles of one row received by a level, at or below the row it receives.
proof fn lemma_feed_keys(s: LevelState, f: Set<(i32, i32)>, e: Set<(i32, i32)>, items: Seq<(i32, i32, Seq<u8>)>, a: i32, side: int, zoom: u8)
    requires
        level_inv(s, f, e),
        unfinished(s, f),
        all_in_row(items, a),
        items.len() > 0 ==> (s.current_y matches Some(c) ==> c <= a),
    ensures
        feed_level(s, items, side, zoom) matches Some(r) && {
            &&& level_inv(r.0, f.union(tile_keys(items)), e.union(tile_keys(r.1)))
            &&& unfinished(r.0, f.union(tile_keys(items)))
            &&& (items.len() > 0 ==> r.0.current_y == Some(a))
            &&& (items.len() == 0 ==> r.0 == s && r.1.len() == 0)
            &&& keys_distinct(r.1)
            &&& forall|k: (i32, i32)| #[trigger] tile_keys(r.1).contains(k) ==> !e.contains(k)
        },
    decreases items.len(),
{
    if items.len() == 0 {
        lemma_tile_keys_empty();
        assert(f.union(tile_keys(items)) =~= f);
        assert(e.union(Set::<(i32, i32)>::empty()) =~= e);
    } else {
        let pre = items.drop_last();
        let it = items.last();
        assert(all_in_row(pre, a)) by {
            assert forall|i: int| 0 <= i < pre.len() implies (#[trigger] pre[i]).1 == a by {
                assert(pre[i] == items[i]);
            }
        }
        lemma_feed_keys(s, f, e, pre, a, side, zoom);
        let r1 = feed_level(s, pre, side, zoom)->Some_0;
        let f1 = f.union(tile_keys(pre));
        let e1 = e.union(tile_keys(r1.1));
        assert(it.1 == a);
        lemma_ingest_keys(r1.0, f1, e1, it.0, it.1, it.2, side, zoom);
        let r2 = level_ingest(r1.0, it.0, it.1, it.2, side, zoom)->Some_0;
        assert(items =~= pre.push(it));
        assert(pre.push(it) =~= pre + seq![it]);
        lemma_tile_keys_concat(pre, seq![it]);
        lemma_tile_keys_one(it);
        assert(f1.insert((it.0, it.1)) =~= f.union(tile_keys(items)));
        lemma_tile_keys_concat(r1.1, r2.1);
        assert(e1.union(tile_keys(r2.1)) =~= e.union(tile_keys(r1.1 + r2.1)));
        assert forall|k: (i32, i32)| #[trigger] tile_keys(r1.1 + r2.1).contains(k) implies !e.contains(k) by {
            if tile_keys(r2.1).contains(k) {
                assert(!e1.contains(k));
            }
        }
        assert forall|k: (i32, i32)| #[trigger] tile_keys(r2.1).contains(k) implies !tile_keys(r1.1).contains(k) by {
            assert(!e1.contains(k));
        }
    }
}

/// Finishing a level: it ends empty, and has then emitted the parent of
/// every tile it received.
proof fn lemma_finish_keys(s: LevelState, f: Set<(i32, i32)>, e: Set<(i32, i32)>, side: int, zoom: u8)
    requires
        level_inv(s, f, e),
        unfinished(s, f),
    ensures
        ({
            let r = level_finish(s, side, zoom);
            &&& r.0 == empty_level()
            &&& level_inv(r.0, f, e.union(tile_keys(r.1)))
            &&& keys_distinct(r.1)
            &&& forall|k: (i32, i32)| #[trigger] tile_keys(r.1).contains(k) ==> !e.contains(k)
        }),
{
    let r = level_finish(s, side, zoom);
    lemma_tile_keys_empty();
    match s.current_y {
        None => {
            assert forall|p: (i32, i32)| #[trigger] e.contains(p) implies false by {
                let k = choose|k: (i32, i32)| #[trigger] f.contains(k) && p == parent_key(k);
            }
            assert(r.1 =~= Seq::<(i32, i32, Seq<u8>)>::empty());
            assert(e.union(tile_keys(r.1)) =~= e);
            assert(s.current =~= Seq::<(i32, Seq<u8>)>::empty());
            assert(r.0 == empty_level());
        },
        Some(c) => {
            lemma_flush_keys(s, f, e, side, zoom);
            let fl = level_flush(s, side, zoom);
            let py = half_floor(c);
            let e1 = e.union(tile_keys(fl.1));
            let rest = emit_row(fl.0.even, fl.0.odd, py, side, zoom);
            lemma_emit_row_keys(fl.0.even, fl.0.odd, py, side, zoom);
            lemma_half_of_double(py);
            assert(r.1 == fl.1 + rest);
            assert(fl.0.current =~= Seq::<(i32, Seq<u8>)>::empty());
            assert(r.0 == empty_level());
            lemma_tile_keys_concat(fl.1, rest);
            let e2 = e.union(tile_keys(r.1));
            assert(e2 =~= e1.union(tile_keys(rest)));
            assert forall|k: (i32, i32)| #[trigger] tile_keys(rest).contains(k) implies !tile_keys(fl.1).contains(k) && !e.contains(k) by {
                assert(!e1.contains(k));
            }
            assert forall|k: (i32, i32)| #[trigger] stored(r.0, k) implies f.contains(k) by {}
            assert forall|k: (i32, i32)| #[trigger] f.contains(k) implies stored(r.0, k) || e2.contains(parent_key(k)) by {
                if held(fl.0, k) {
                    lemma_parent_column_of(fl.0.even, fl.0.odd, k.0);
                    assert(half_floor(k.1) == py);
                    assert(tile_keys(rest).contains(parent_key(k)));
                }
            }
            assert forall|p: (i32, i32)| #[trigger] e2.contains(p) implies exists|k: (i32, i32)| #[trigger] f.contains(k) && p == parent_key(k) by {
                if tile_keys(rest).contains(p) {
                    lemma_parent_column_witness(fl.0.even, fl.0.odd, p.0);
                    let x = choose|x: i32| (row_has(fl.0.even, x) || row_has(fl.0.odd, x)) && #[trigger] half_floor(x) == p.0;
                    let k: (i32, i32) = if row_has(fl.0.even, x) { (x, (2 * py) as i32) } else { (x, (2 * py + 1) as i32) };
                    assert(held(fl.0, k));
                    assert(f.contains(k) && p == parent_key(k));
                } else {
                    assert(e1.contains(p));
                }
            }
        },
    }
}

/// Zoom, column and row of each emitted parent tile.
pub open spec fn out_keys(t: Seq<(u8, i32, i32, Seq<u8>)>) -> Seq<(u8, i32, i32)> {
    t.map_values(|e: (u8, i32, i32, Seq<u8>)| (e.0, e.1, e.2))
}

/// Tile `t` is among the parents `es[j]` emitted by a level `j` of zoom `t.0`.
pub open spec fn in_levels(zooms: Seq<u8>, es: Seq<Set<(i32, i32)>>, t: (u8, i32, i32)) -> bool {
    exists|j: int| 0 <= j < es.len() && zooms[j] == t.0 && #[trigger] es[j].contains((t.1, t.2))
}

/// The emitted tiles `o` are those of the levels, each once.
pub open spec fn emits_match(o: Seq<(u8, i32, i32)>, zooms: Seq<u8>, es: Seq<Set<(i32, i32)>>) -> bool {
    &&& o.no_duplicates()
    &&& forall|t: (u8, i32, i32)| #[trigger] o.contains(t) <==> in_levels(zooms, es, t)
}

pub open spec fn zooms_distinct(zooms: Seq<u8>) -> bool {
    forall|i: int, j: int| 0 <= i < j < zooms.len() ==> zooms[i] != zooms[j]
}

proof fn lemma_out_keys_concat(a: Seq<(u8, i32, i32, Seq<u8>)>, b: Seq<(u8, i32, i32, Seq<u8>)>)
    ensures
        out_keys(a + b) == out_keys(a) + out_keys(b),
{
    assert(out_keys(a + b) =~= out_keys(a) + out_keys(b));
}

/// Level `l` emits the tiles `t`, new to it: they join the emitted tiles.
proof fn lemma_emits_extend(o: Seq<(u8, i32, i32)>, zooms: Seq<u8>, es: Seq<Set<(i32, i32)>>, l: int, t: Seq<(i32, i32, Seq<u8>)>)
    requires
        emits_match(o, zooms, es),
        zooms_distinct(zooms),
        zooms.len() == es.len(),
        0 <= l < es.len(),
        keys_distinct(t),
        forall|k: (i32, i32)| #[trigger] tile_keys(t).contains(k) ==> !es[l].contains(k),
    ensures
        emits_match(o + out_keys(tag_tiles(zooms[l], t)), zooms, es.update(l, es[l].union(tile_keys(t)))),
{
    let z = zooms[l];
    let tg = out_keys(tag_tiles(z, t));
    let n = o + tg;
    let es2 = es.update(l, es[l].union(tile_keys(t)));
    assert(tg.len() == t.len());
    assert forall|i: int| 0 <= i < tg.len() implies #[trigger] tg[i] == (z, t[i].0, t[i].1) by {}
    assert forall|x: (u8, i32, i32)| #[trigger] tg.contains(x) <==> (x.0 == z && tile_keys(t).contains((x.1, x.2))) by {
        if tg.contains(x) {
            let i = choose|i: int| 0 <= i < tg.len() && tg[i] == x;
            assert(t[i].0 == x.1 && t[i].1 == x.2);
        }
        if x.0 == z && tile_keys(t).contains((x.1, x.2)) {
            let i = choose|i: int| 0 <= i < t.len() && (#[trigger] t[i]).0 == x.1 && t[i].1 == x.2;
            assert(tg[i] == x);
        }
    }
    assert forall|x: (u8, i32, i32)| #[trigger] o.contains(x) && x.0 == z implies es[l].contains((x.1, x.2)) by {
        let j = choose|j: int| 0 <= j < es.len() && zooms[j] == x.0 && #[trigger] es[j].contains((x.1, x.2));
        if j != l {
            if j < l {
                assert(zooms[j] != zooms[l]);
            } else {
                assert(zooms[l] != zooms[j]);
            }
        }
    }
    assert forall|i: int, j: int| 0 <= i < n.len() && 0 <= j < n.len() && i != j implies n[i] != n[j] by {
        if i < o.len() && j < o.len() {
            assert(n[i] == o[i] && n[j] == o[j]);
        } else if i >= o.len() && j >= o.len() {
            let ii = i - o.len();
            let jj = j - o.len();
            assert(n[i] == tg[ii] && n[j] == tg[jj]);
            if ii < jj {
                assert(!(t[ii].0 == t[jj].0 && t[ii].1 == t[jj].1));
            } else {
                assert(!(t[jj].0 == t[ii].0 && t[jj].1 == t[ii].1));
            }
        } else {
            let (oi, ti) = if i < o.len() { (i, j - o.len()) } else { (j, i - o.len()) };
            assert(n[oi] == o[oi]);
            assert(n[ti + o.len()] == tg[ti]);
            if o[oi] == tg[ti] {
                assert(o.contains(o[oi]));
                assert(tg.contains(tg[ti]));
                assert(tile_keys(t).contains((tg[ti].1, tg[ti].2)));
                assert(es[l].contains((tg[ti].1, tg[ti].2)));
            }
        }
    }
    assert(n.no_duplicates());
    assert forall|x: (u8, i32, i32)| #[trigger] n.contains(x) <==> in_levels(zooms, es2, x) by {
        if n.contains(x) {
            let i = choose|i: int| 0 <= i < n.len() && n[i] == x;
            if i < o.len() {
                assert(o[i] == x);
                assert(o.contains(x));
                let j = choose|j: int| 0 <= j < es.len() && zooms[j] == x.0 && #[trigger] es[j].contains((x.1, x.2));
                assert(es2[j].contains((x.1, x.2)));
            } else {
                assert(tg[i - o.len()] == x);
                assert(tg.contains(x));
                assert(es2[l].contains((x.1, x.2)));
            }
        }
        if in_levels(zooms, es2, x) {
            let j = choose|j: int| 0 <= j < es2.len() && zooms[j] == x.0 && #[trigger] es2[j].contains((x.1, x.2));
            if j != l || es[l].contains((x.1, x.2)) {
                assert(in_levels(zooms, es, x)) by {
                    if j != l {
                        assert(es[j].contains((x.1, x.2)));
                    }
                }
                assert(o.contains(x));
                let i = choose|i: int| 0 <= i < o.len() && o[i] == x;
                assert(n[i] == x);
            } else {
                assert(tg.contains(x));
                let i = choose|i: int| 0 <= i < tg.len() && tg[i] == x;
                assert(n[i + o.len()] == x);
            }
        }
    }
}

/// What cascading `items` from level `l` gives (see `lemma_cascade_keys`).
pub open spec fn cascade_post(
    states: Seq<LevelState>,
    zooms: Seq<u8>,
    side: int,
    l: nat,
    items: Seq<(i32, i32, Seq<u8>)>,
    a: i32,
    fs: Seq<Set<(i32, i32)>>,
    es: Seq<Set<(i32, i32)>>,
    o: Seq<(u8, i32, i32)>,
    res: (Seq<Set<(i32, i32)>>, Seq<Set<(i32, i32)>>),
) -> bool {
        cascade(states, zooms, side, l, items) matches Some(r) && {
            &&& r.0.len() == states.len()
            &&& res.0.len() == states.len()
            &&& res.1.len() == states.len()
            &&& ordered_from(r.0, l as int)
            &&& forall|j: int| l <= j < states.len() ==> level_inv(#[trigger] r.0[j], res.0[j], res.1[j]) && unfinished(r.0[j], res.0[j])
            &&& forall|j: int| l <= j && j + 1 < states.len() ==> #[trigger] res.0[j + 1] == res.1[j]
            &&& forall|j: int| 0 <= j < l && j < states.len() ==> #[trigger] r.0[j] == states[j] && res.0[j] == fs[j] && res.1[j] == es[j]
            &&& l < states.len() ==> res.0[l as int] == fs[l as int].union(tile_keys(items))
            &&& l < states.len() && items.len() > 0 ==> r.0[l as int].current_y == Some(a)
            &&& emits_match(o + out_keys(r.1), zooms, res.1)
        }
}

/// Cascading tiles of one row from level `l`: every level on the way keeps
/// its invariant, and the emitted tiles stay those of the levels, each once.
#[verifier::rlimit(40)]
proof fn lemma_cascade_keys(
    states: Seq<LevelState>,
    zooms: Seq<u8>,
    side: int,
    l: nat,
    items: Seq<(i32, i32, Seq<u8>)>,
    a: i32,
    fs: Seq<Set<(i32, i32)>>,
    es: Seq<Set<(i32, i32)>>,
    o: Seq<(u8, i32, i32)>,
) -> (res: (Seq<Set<(i32, i32)>>, Seq<Set<(i32, i32)>>))
    requires
        states.len() == zooms.len(),
        fs.len() == states.len(),
        es.len() == states.len(),
        zooms_distinct(zooms),
        l <= states.len(),
        ordered_from(states, l as int),
        all_in_row(items, a),
        l < states.len() && items.len() > 0 ==> (states[l as int].current_y matches Some(c) ==> c <= a),
        forall|j: int| l <= j < states.len() ==> level_inv(#[trigger] states[j], fs[j], es[j]) && unfinished(states[j], fs[j]),
        forall|j: int| l <= j && j + 1 < states.len() ==> #[trigger] fs[j + 1] == es[j],
        emits_match(o, zooms, es),
    ensures
        cascade_post(states, zooms, side, l, items, a, fs, es, o, res),
    decreases states.len() - l,
{
    let n = states.len();
    lemma_cascade_ordered(states, zooms, side, l, items, a, l as int);
    if l >= n {
        assert(out_keys(Seq::<(u8, i32, i32, Seq<u8>)>::empty()) =~= Seq::<(u8, i32, i32)>::empty());
        assert(o + Seq::<(u8, i32, i32)>::empty() =~= o);
        assert(cascade(states, zooms, side, l, items) == Some((states, Seq::<(u8, i32, i32, Seq<u8>)>::empty())));
        assert(cascade_post(states, zooms, side, l, items, a, fs, es, o, (fs, es)));
        (fs, es)
    } else {
        let st = states[l as int];
        let zl = zooms[l as int];
        lemma_feed_keys(st, fs[l as int], es[l as int], items, a, side, zl);
        lemma_feed_same_row(st, items, a, side, zl);
        let r1 = feed_level(st, items, side, zl)->Some_0;
        let f1 = fs[l as int].union(tile_keys(items));
        let e1 = es[l as int].union(tile_keys(r1.1));
        let st2 = states.update(l as int, r1.0);
        let fs2 = fs.update(l as int, f1);
        let es2 = es.update(l as int, e1);
        lemma_emits_extend(o, zooms, es, l as int, r1.1);
        let o2 = o + out_keys(tag_tiles(zl, r1.1));
        let b: i32 = match st.active {
            Some(b) => b,
            None => 0,
        };
        assert(ordered_from(st2, l + 1int)) by {
            assert forall|j: int| l + 1 <= j < st2.len() implies #[trigger] level_ok(st2[j]) by {
                assert(st2[j] == states[j]);
            }
            assert forall|j: int| l + 1 <= j && j + 1 < st2.len() implies #[trigger] linked_at(st2, j) by {
                assert(linked_at(states, j));
            }
        }
        if l + 1 < n && r1.1.len() > 0 {
            assert(linked_at(states, l as int));
        }
        assert forall|j: int| l + 1 <= j < n implies level_inv(#[trigger] st2[j], fs2[j], es2[j]) && unfinished(st2[j], fs2[j]) by {
            assert(st2[j] == states[j]);
        }
        assert forall|j: int| l + 1 <= j && j + 1 < n implies #[trigger] fs2[j + 1] == es2[j] by {
            assert(fs[j + 1] == es[j]);
        }
        let res2 = lemma_cascade_keys(st2, zooms, side, l + 1, r1.1, b, fs2, es2, o2);
        let r2 = cascade(st2, zooms, side, l + 1, r1.1)->Some_0;
        let r = cascade(states, zooms, side, l, items)->Some_0;
        assert(r == (r2.0, tag_tiles(zl, r1.1) + r2.1));
        lemma_out_keys_concat(tag_tiles(zl, r1.1), r2.1);
        assert(o + out_keys(r.1) =~= o2 + out_keys(r2.1));
        assert(r2.0[l as int] == st2[l as int]);
        assert(res2.0[l as int] == f1);
        assert(res2.1[l as int] == e1);
        if l + 1 < n {
            assert(fs[l + 1int] == es[l as int]);
            assert(res2.0[l + 1int] == e1);
        }
        assert forall|j: int| l <= j < n implies level_inv(#[trigger] r.0[j], res2.0[j], res2.1[j]) && unfinished(r.0[j], res2.0[j]) by {
            if j == l {
                assert(r.0[j] == r1.0);
            }
        }
        assert forall|j: int| l <= j && j + 1 < n implies #[trigger] res2.0[j + 1] == res2.1[j] by {
            if j == l {
                assert(res2.0[l + 1int] == e1);
            }
        }
        assert forall|j: int| 0 <= j < l && j < n implies #[trigger] r.0[j] == states[j] && res2.0[j] == fs[j] && res2.1[j] == es[j] by {
            assert(r2.0[j] == st2[j]);
        }
        assert(cascade_post(states, zooms, side, l, items, a, fs, es, o, res2));
        res2
    }
}

/// What spreading the tiles `prod` emitted by finished level `l` gives (see
/// `lemma_spread_keys`).
pub open spec fn spread_post(
    states: Seq<LevelState>,
    zooms: Seq<u8>,
    side: int,
    l: nat,
    prod: Seq<(i32, i32, Seq<u8>)>,
    fs: Seq<Set<(i32, i32)>>,
    es: Seq<Set<(i32, i32)>>,
    o: Seq<(u8, i32, i32)>,
    res: (Seq<Set<(i32, i32)>>, Seq<Set<(i32, i32)>>),
) -> bool {
    spread(states, zooms, side, l, prod) matches Some(r) && {
        &&& r.0.len() == states.len()
        &&& res.0.len() == states.len()
        &&& res.1.len() == states.len()
        &&& ordered_from(r.0, l + 1int)
        &&& forall|j: int| 0 <= j <= l && j < states.len() ==> #[trigger] r.0[j] == states[j] && res.0[j] == fs[j]
        &&& forall|j: int| 0 <= j < l ==> #[trigger] res.1[j] == es[j]
        &&& res.1[l as int] == es[l as int].union(tile_keys(prod))
        &&& forall|j: int| l + 1 <= j < states.len() ==> level_inv(#[trigger] r.0[j], res.0[j], res.1[j]) && unfinished(r.0[j], res.0[j])
        &&& forall|j: int| l <= j && j + 1 < states.len() ==> #[trigger] res.0[j + 1] == res.1[j]
        &&& l + 1 < states.len() && prod.len() > 0 ==> r.0[l + 1int].current_y == Some(prod.last().1)
        &&& emits_match(o + out_keys(r.1), zooms, res.1)
    }
}

/// Spreading what a finished level emitted: each tile is emitted and then
/// cascaded through the levels above.
#[verifier::rlimit(40)]
proof fn lemma_spread_keys(
    states: Seq<LevelState>,
    zooms: Seq<u8>,
    side: int,
    l: nat,
    prod: Seq<(i32, i32, Seq<u8>)>,
    fs: Seq<Set<(i32, i32)>>,
    es: Seq<Set<(i32, i32)>>,
    o: Seq<(u8, i32, i32)>,
) -> (res: (Seq<Set<(i32, i32)>>, Seq<Set<(i32, i32)>>))
    requires
        states.len() == zooms.len(),
        fs.len() == states.len(),
        es.len() == states.len(),
        zooms_distinct(zooms),
        l < states.len(),
        ordered_from(states, l + 1int),
        rows_nondecreasing(prod),
        l + 1 < states.len() && prod.len() > 0 ==> (states[l + 1int].current_y matches Some(c) ==> c <= prod[0].1),
        keys_distinct(prod),
        forall|k: (i32, i32)| #[trigger] tile_keys(prod).contains(k) ==> !es[l as int].contains(k),
        forall|j: int| l + 1 <= j < states.len() ==> level_inv(#[trigger] states[j], fs[j], es[j]) && unfinished(states[j], fs[j]),
        forall|j: int| l <= j && j + 1 < states.len() ==> #[trigger] fs[j + 1] == es[j],
        emits_match(o, zooms, es),
    ensures
        spread_post(states, zooms, side, l, prod, fs, es, o, res),
    decreases prod.len(),
{
    let n = states.len();
    if prod.len() == 0 {
        lemma_tile_keys_empty();
        assert(es[l as int].union(tile_keys(prod)) =~= es[l as int]);
        assert(out_keys(Seq::<(u8, i32, i32, Seq<u8>)>::empty()) =~= Seq::<(u8, i32, i32)>::empty());
        assert(o + Seq::<(u8, i32, i32)>::empty() =~= o);
        assert(spread(states, zooms, side, l, prod) == Some((states, Seq::<(u8, i32, i32, Seq<u8>)>::empty())));
        assert(spread_post(states, zooms, side, l, prod, fs, es, o, (fs, es)));
        (fs, es)
    } else {
        let pre = prod.drop_last();
        let t = prod.last();
        let zl = zooms[l as int];
        assert(rows_nondecreasing(pre)) by {
            assert forall|i: int, j: int| 0 <= i < j < pre.len() implies (#[trigger] pre[i]).1 <= (#[trigger] pre[j]).1 by {
                assert(pre[i] == prod[i] && pre[j] == prod[j]);
            }
        }
        assert(keys_distinct(pre)) by {
            assert forall|i: int, j: int| 0 <= i < j < pre.len() implies !((#[trigger] pre[i]).0 == (#[trigger] pre[j]).0 && pre[i].1 == pre[j].1) by {
                assert(pre[i] == prod[i] && pre[j] == prod[j]);
            }
        }
        assert(prod =~= pre + seq![t]);
        lemma_tile_keys_concat(pre, seq![t]);
        lemma_tile_keys_one(t);
        if pre.len() > 0 {
            assert(pre[0] == prod[0]);
        }
        assert forall|k: (i32, i32)| #[trigger] tile_keys(pre).contains(k) implies !es[l as int].contains(k) by {
            assert(tile_keys(prod).contains(k));
        }
        let res1 = lemma_spread_keys(states, zooms, side, l, pre, fs, es, o);
        let r1 = spread(states, zooms, side, l, pre)->Some_0;
        let o1 = o + out_keys(r1.1);
        assert(!tile_keys(pre).contains((t.0, t.1))) by {
            if tile_keys(pre).contains((t.0, t.1)) {
                let i = choose|i: int| 0 <= i < pre.len() && (#[trigger] pre[i]).0 == t.0 && pre[i].1 == t.1;
                assert(prod[i] == pre[i]);
                assert(prod[prod.len() - 1] == t);
            }
        }
        assert(tile_keys(prod).contains((t.0, t.1)));
        assert forall|k: (i32, i32)| #[trigger] tile_keys(seq![t]).contains(k) implies !res1.1[l as int].contains(k) by {
            assert(k == (t.0, t.1));
        }
        lemma_emits_extend(o1, zooms, res1.1, l as int, seq![t]);
        let es2 = res1.1.update(l as int, res1.1[l as int].union(tile_keys(seq![t])));
        let o2 = o1 + out_keys(tag_tiles(zl, seq![t]));
        let one = seq![t];
        assert(all_in_row(one, t.1));
        if l + 1 < n {
            if pre.len() > 0 {
                assert(pre.last() == prod[prod.len() - 2]);
                assert(prod[prod.len() - 2].1 <= prod[prod.len() - 1].1);
            } else {
                assert(r1.0 == states);
            }
        }
        assert forall|j: int| l + 1 <= j < n implies level_inv(#[trigger] r1.0[j], res1.0[j], es2[j]) && unfinished(r1.0[j], res1.0[j]) by {
            assert(es2[j] == res1.1[j]);
        }
        assert forall|j: int| l + 1 <= j && j + 1 < n implies #[trigger] res1.0[j + 1] == es2[j] by {
            assert(es2[j] == res1.1[j]);
        }
        let res2 = lemma_cascade_keys(r1.0, zooms, side, l + 1, one, t.1, res1.0, es2, o2);
        let r2 = cascade(r1.0, zooms, side, l + 1, one)->Some_0;
        let r = spread(states, zooms, side, l, prod)->Some_0;
        assert(r == (r2.0, r1.1 + seq![(zl, t.0, t.1, t.2)] + r2.1));
        assert(tag_tiles(zl, one) =~= seq![(zl, t.0, t.1, t.2)]);
        lemma_out_keys_concat(r1.1 + seq![(zl, t.0, t.1, t.2)], r2.1);
        lemma_out_keys_concat(r1.1, seq![(zl, t.0, t.1, t.2)]);
        assert(o + out_keys(r.1) =~= o2 + out_keys(r2.1));
        assert(r2.0[l as int] == r1.0[l as int]);
        assert(res2.1[l as int] == es2[l as int]);
        assert(es2[l as int] =~= es[l as int].union(tile_keys(prod)));
        if l + 1 < n {
            assert(res2.0[l + 1int] == res1.0[l + 1int].union(tile_keys(one)));
            assert(res1.0[l + 1int] == res1.1[l as int]);
            assert(res2.0[l + 1int] == res2.1[l as int]);
        }
        assert forall|j: int| 0 <= j <= l && j < n implies #[trigger] r.0[j] == states[j] && res2.0[j] == fs[j] by {
            assert(r2.0[j] == r1.0[j]);
        }
        assert forall|j: int| 0 <= j < l implies #[trigger] res2.1[j] == es[j] by {
            assert(r2.0[j] == r1.0[j]);
            assert(res2.1[j] == es2[j]);
            assert(r1.0[j] == states[j]);
        }
        assert forall|j: int| l <= j && j + 1 < n implies #[trigger] res2.0[j + 1] == res2.1[j] by {
            if j == l {
                assert(res2.0[l + 1int] == res2.1[l as int]);
            }
        }
        assert(r.0 == r2.0);
        assert(ordered_from(r.0, l + 1int));
        assert forall|j: int| l + 1 <= j < n implies level_inv(#[trigger] r.0[j], res2.0[j], res2.1[j]) && unfinished(r.0[j], res2.0[j]) by {
            assert(r2.0[j] == r.0[j]);
        }
        assert(l + 1 < n && prod.len() > 0 ==> r.0[l + 1int].current_y == Some(prod.last().1));
        assert(res2.1[l as int] == es[l as int].union(tile_keys(prod)));
        assert(emits_match(o + out_keys(r.1), zooms, res2.1));
        assert(spread_post(states, zooms, side, l, prod, fs, es, o, res2));
        res2
    }
}

/// What finishing levels `l` to `n - 1` gives (see `lemma_finish_levels_keys`).
pub open spec fn finish_post(
    states: Seq<LevelState>,
    zooms: Seq<u8>,
    side: int,
    l: nat,
    n: nat,
    fs: Seq<Set<(i32, i32)>>,
    o: Seq<(u8, i32, i32)>,
    res: (Seq<Set<(i32, i32)>>, Seq<Set<(i32, i32)>>),
) -> bool {
    finish_levels(states, zooms, side, l, n) matches Some(r) && {
        &&& r.0.len() == n
        &&& res.0.len() == n
        &&& res.1.len() == n
        &&& forall|j: int| 0 <= j < n ==> #[trigger] r.0[j] == empty_level() && level_inv(r.0[j], res.0[j], res.1[j])
        &&& forall|j: int| 0 <= j && j + 1 < n ==> #[trigger] res.0[j + 1] == res.1[j]
        &&& forall|j: int| 0 <= j <= l && j < n ==> #[trigger] res.0[j] == fs[j]
        &&& emits_match(o + out_keys(r.1), zooms, res.1)
    }
}

/// Finishing levels `l` and above, in order.
#[verifier::rlimit(40)]
proof fn lemma_finish_levels_keys(
    states: Seq<LevelState>,
    zooms: Seq<u8>,
    side: int,
    l: nat,
    n: nat,
    fs: Seq<Set<(i32, i32)>>,
    es: Seq<Set<(i32, i32)>>,
    o: Seq<(u8, i32, i32)>,
) -> (res: (Seq<Set<(i32, i32)>>, Seq<Set<(i32, i32)>>))
    requires
        n == states.len(),
        zooms.len() == n,
        fs.len() == n,
        es.len() == n,
        zooms_distinct(zooms),
        l <= n,
        ordered_from(states, l as int),
        forall|j: int| 0 <= j < l ==> #[trigger] states[j] == empty_level() && level_inv(states[j], fs[j], es[j]),
        forall|j: int| l <= j < n ==> level_inv(#[trigger] states[j], fs[j], es[j]) && unfinished(states[j], fs[j]),
        forall|j: int| 0 <= j && j + 1 < n ==> #[trigger] fs[j + 1] == es[j],
        emits_match(o, zooms, es),
    ensures
        finish_post(states, zooms, side, l, n, fs, o, res),
    decreases n - l,
{
    if l >= n {
        assert(out_keys(Seq::<(u8, i32, i32, Seq<u8>)>::empty()) =~= Seq::<(u8, i32, i32)>::empty());
        assert(o + Seq::<(u8, i32, i32)>::empty() =~= o);
        assert(finish_levels(states, zooms, side, l, n) == Some((states, Seq::<(u8, i32, i32, Seq<u8>)>::empty())));
        assert(finish_post(states, zooms, side, l, n, fs, o, (fs, es)));
        (fs, es)
    } else {
        let s = states[l as int];
        let zl = zooms[l as int];
        lemma_finish_keys(s, fs[l as int], es[l as int], side, zl);
        lemma_finish_level_rows(states, zooms, side, l);
        let fin = level_finish(s, side, zl);
        let st2 = states.update(l as int, fin.0);
        assert forall|j: int| l + 1 <= j < n implies level_inv(#[trigger] st2[j], fs[j], es[j]) && unfinished(st2[j], fs[j]) by {
            assert(st2[j] == states[j]);
        }
        let res1 = lemma_spread_keys(st2, zooms, side, l, fin.1, fs, es, o);
        let r1 = spread(st2, zooms, side, l, fin.1)->Some_0;
        let o1 = o + out_keys(r1.1);
        assert forall|j: int| 0 <= j < l + 1 implies #[trigger] r1.0[j] == empty_level() && level_inv(r1.0[j], res1.0[j], res1.1[j]) by {
            assert(r1.0[j] == st2[j]);
            assert(res1.0[j] == fs[j]);
            if j < l {
                assert(res1.1[j] == es[j]);
            }
        }
        assert forall|j: int| 0 <= j && j + 1 < n implies #[trigger] res1.0[j + 1] == res1.1[j] by {
            if j < l {
                assert(r1.0[j + 1] == st2[j + 1]);
                assert(r1.0[j] == st2[j]);
                assert(res1.0[j + 1] == fs[j + 1]);
                assert(res1.1[j] == es[j]);
            }
        }
        let res2 = lemma_finish_levels_keys(r1.0, zooms, side, l + 1, n, res1.0, res1.1, o1);
        let r2 = finish_levels(r1.0, zooms, side, l + 1, n)->Some_0;
        let r = finish_levels(states, zooms, side, l, n)->Some_0;
        assert(r == (r2.0, r1.1 + r2.1));
        lemma_out_keys_concat(r1.1, r2.1);
        assert(o + out_keys(r.1) =~= o1 + out_keys(r2.1));
        assert forall|j: int| 0 <= j <= l && j < n implies #[trigger] res2.0[j] == fs[j] by {
            assert(res2.0[j] == res1.0[j]);
            assert(r1.0[j] == st2[j]);
        }
        assert(finish_post(states, zooms, side, l, n, fs, o, res2));
        res2
    }
}

/// The levels of a new pyramid over `z` coarser zooms.
pub open spec fn initial_levels(z: u8) -> Seq<LevelState> {
    Seq::new(z as nat, |i: int| empty_level())
}

/// The zoom of each level of a pyramid over `z` coarser zooms, the finest
/// first.
pub open spec fn level_zooms(z: u8) -> Seq<u8> {
    Seq::new(z as nat, |i: int| (z - 1 - i) as u8)
}

/// Pushes the playable tiles one by one, each cascaded from the first level.
pub open spec fn push_all(states: Seq<LevelState>, zooms: Seq<u8>, side: int, tiles: Seq<(i32, i32, Seq<u8>)>) -> Option<(Seq<LevelState>, Seq<(u8, i32, i32, Seq<u8>)>)>
    decreases tiles.len(),
{
    if tiles.len() == 0 {
        Some((states, Seq::empty()))
    } else {
        match push_all(states, zooms, side, tiles.drop_last()) {
            None => None,
            Some(r1) => match cascade(r1.0, zooms, side, 0, seq![tiles.last()]) {
                None => None,
                Some(r2) => Some((r2.0, r1.1 + r2.1)),
            },
        }
    }
}

/// Coordinate `x` at `k` zoom levels coarser.
pub open spec fn ancestor(x: i32, k: nat) -> i32
    decreases k,
{
    if k == 0 {
        x
    } else {
        half_floor(ancestor(x, (k - 1) as nat))
    }
}

proof fn lemma_level_zooms_distinct(z: u8)
    ensures
        zooms_distinct(level_zooms(z)),
        level_zooms(z).len() == z,
{
    let zs = level_zooms(z);
    assert forall|i: int, j: int| 0 <= i < j < zs.len() implies zs[i] != zs[j] by {
        assert(0 <= z - 1 - j < z - 1 - i <= 255);
        assert(zs[i] == (z - 1 - i) as u8);
        assert(zs[j] == (z - 1 - j) as u8);
    }
}

/// Pushing row-ordered tiles into a new pyramid.
proof fn lemma_push_all_keys(z: u8, side: int, tiles: Seq<(i32, i32, Seq<u8>)>) -> (res: (Seq<Set<(i32, i32)>>, Seq<Set<(i32, i32)>>))
    requires
        rows_nondecreasing(tiles),
    ensures
        push_all(initial_levels(z), level_zooms(z), side, tiles) matches Some(p) && {
            &&& p.0.len() == z
            &&& res.0.len() == z
            &&& res.1.len() == z
            &&& ordered_from(p.0, 0)
            &&& forall|j: int| 0 <= j < z ==> level_inv(#[trigger] p.0[j], res.0[j], res.1[j]) && unfinished(p.0[j], res.0[j])
            &&& forall|j: int| 0 <= j && j + 1 < z ==> #[trigger] res.0[j + 1] == res.1[j]
            &&& z > 0 ==> res.0[0] == tile_keys(tiles)
            &&& z > 0 && tiles.len() > 0 ==> p.0[0].current_y == Some(tiles.last().1)
            &&& emits_match(out_keys(p.1), level_zooms(z), res.1)
        },
    decreases tiles.len(),
{
    let init = initial_levels(z);
    let zooms = level_zooms(z);
    lemma_level_zooms_distinct(z);
    if tiles.len() == 0 {
        let none = Seq::new(z as nat, |j: int| Set::<(i32, i32)>::empty());
        lemma_tile_keys_empty();
        assert forall|j: int| 0 <= j < z implies level_inv(#[trigger] init[j], none[j], none[j]) && unfinished(init[j], none[j]) by {
            assert(init[j] == empty_level());
            assert forall|k: (i32, i32)| #[trigger] stored(init[j], k) implies none[j].contains(k) by {}
        }
        assert(ordered_from(init, 0)) by {
            assert forall|j: int| 0 <= j < init.len() implies #[trigger] level_ok(init[j]) by {}
            assert forall|j: int| 0 <= j && j + 1 < init.len() implies #[trigger] linked_at(init, j) by {
                assert(init[j + 1] == empty_level());
            }
        }
        let o = out_keys(Seq::<(u8, i32, i32, Seq<u8>)>::empty());
        assert(o =~= Seq::<(u8, i32, i32)>::empty());
        assert forall|t: (u8, i32, i32)| #[trigger] o.contains(t) <==> in_levels(zooms, none, t) by {
            if in_levels(zooms, none, t) {
                let j = choose|j: int| 0 <= j < none.len() && zooms[j] == t.0 && #[trigger] none[j].contains((t.1, t.2));
            }
        }
        (none, none)
    } else {
        let pre = tiles.drop_last();
        let t = tiles.last();
        assert(rows_nondecreasing(pre)) by {
            assert forall|i: int, j: int| 0 <= i < j < pre.len() implies (#[trigger] pre[i]).1 <= (#[trigger] pre[j]).1 by {
                assert(pre[i] == tiles[i] && pre[j] == tiles[j]);
            }
        }
        let res1 = lemma_push_all_keys(z, side, pre);
        let p1 = push_all(init, zooms, side, pre)->Some_0;
        let one = seq![t];
        assert(all_in_row(one, t.1));
        if z > 0 && pre.len() > 0 {
            assert(pre.last() == tiles[tiles.len() - 2]);
            assert(tiles[tiles.len() - 2].1 <= tiles[tiles.len() - 1].1);
        }
        if pre.len() == 0 {
            assert(p1.0 == init);
            if z > 0 {
                assert(init[0] == empty_level());
            }
        }
        let res2 = lemma_cascade_keys(p1.0, zooms, side, 0, one, t.1, res1.0, res1.1, out_keys(p1.1));
        let r2 = cascade(p1.0, zooms, side, 0, one)->Some_0;
        let p = push_all(init, zooms, side, tiles)->Some_0;
        assert(p == (r2.0, p1.1 + r2.1));
        lemma_out_keys_concat(p1.1, r2.1);
        if z > 0 {
            assert(tiles =~= pre + one);
            lemma_tile_keys_concat(pre, one);
        }
        res2
    }
}

/// What the levels emitted once all are finished: the tiles `k` zoom levels
/// above the playable tiles, for level `k - 1`.
proof fn lemma_levels_ancestors(tiles: Seq<(i32, i32, Seq<u8>)>, fs: Seq<Set<(i32, i32)>>, es: Seq<Set<(i32, i32)>>, j: int)
    requires
        fs.len() == es.len(),
        0 <= j < es.len(),
        forall|i: int| 0 <= i < es.len() ==> level_inv(empty_level(), #[trigger] fs[i], es[i]),
        forall|i: int| 0 <= i && i + 1 < es.len() ==> #[trigger] fs[i + 1] == es[i],
        fs[0] == tile_keys(tiles),
    ensures
        forall|p: (i32, i32)| #[trigger] es[j].contains(p) <==> exists|i: int| 0 <= i < tiles.len() && p == (ancestor(tiles[i].0, (j + 1) as nat), ancestor(tiles[i].1, (j + 1) as nat)),
    decreases j,
{
    let e = es[j];
    let f = fs[j];
    assert(level_inv(empty_level(), f, e));
    assert forall|k: (i32, i32)| !#[trigger] stored(empty_level(), k) by {}
    if j > 0 {
        lemma_levels_ancestors(tiles, fs, es, j - 1);
        let jm = j - 1;
        assert(0 <= jm && jm + 1 < es.len());
        assert(fs[jm + 1] == es[jm]);
        assert(fs[j] == es[j - 1]);
    }
    assert forall|p: (i32, i32)| #[trigger] e.contains(p) <==> exists|i: int| 0 <= i < tiles.len() && p == (ancestor(tiles[i].0, (j + 1) as nat), ancestor(tiles[i].1, (j + 1) as nat)) by {
        if e.contains(p) {
            let k = choose|k: (i32, i32)| #[trigger] f.contains(k) && p == parent_key(k);
            let i: int = if j == 0 {
                choose|i: int| 0 <= i < tiles.len() && (#[trigger] tiles[i]).0 == k.0 && tiles[i].1 == k.1
            } else {
                assert(es[j - 1].contains(k));
                choose|i: int| 0 <= i < tiles.len() && k == (ancestor(tiles[i].0, j as nat), ancestor(tiles[i].1, j as nat))
            };
            assert(ancestor(tiles[i].0, 0) == tiles[i].0);
            assert(ancestor(tiles[i].1, 0) == tiles[i].1);
            assert(p == (ancestor(tiles[i].0, (j + 1) as nat), ancestor(tiles[i].1, (j + 1) as nat)));
        }
        if exists|i: int| 0 <= i < tiles.len() && p == (ancestor(tiles[i].0, (j + 1) as nat), ancestor(tiles[i].1, (j + 1) as nat)) {
            let i = choose|i: int| 0 <= i < tiles.len() && p == (ancestor(tiles[i].0, (j + 1) as nat), ancestor(tiles[i].1, (j + 1) as nat));
            let k = (ancestor(tiles[i].0, j as nat), ancestor(tiles[i].1, j as nat));
            if j == 0 {
                assert(ancestor(tiles[i].0, 0) == tiles[i].0);
                assert(ancestor(tiles[i].1, 0) == tiles[i].1);
                assert(tile_keys(tiles).contains(k));
            } else {
                assert(es[j - 1].contains(k));
            }
            assert(f.contains(k));
            assert(p == parent_key(k));
        }
    }
}

/// Finishing levels that are all empty changes nothing and emits nothing.
proof fn lemma_finish_empty_levels(states: Seq<LevelState>, zooms: Seq<u8>, side: int, l: nat, n: nat)
    requires
        n == states.len(),
        forall|j: int| 0 <= j < n ==> #[trigger] states[j] == empty_level(),
    ensures
        finish_levels(states, zooms, side, l, n) == Some((states, Seq::<(u8, i32, i32, Seq<u8>)>::empty())),
    decreases n - l,
{
    if l < n {
        let fin = level_finish(states[l as int], side, zooms[l as int]);
        assert(fin.0 == empty_level());
        assert(fin.1 =~= Seq::<(i32, i32, Seq<u8>)>::empty());
        assert(states.update(l as int, fin.0) =~= states);
        assert(spread(states, zooms, side, l, fin.1) == Some((states, Seq::<(u8, i32, i32, Seq<u8>)>::empty())));
        lemma_finish_empty_levels(states, zooms, side, l + 1, n);
        assert(Seq::<(u8, i32, i32, Seq<u8>)>::empty() + Seq::<(u8, i32, i32, Seq<u8>)>::empty() =~= Seq::<(u8, i32, i32, Seq<u8>)>::empty());
    }
}

/// Law: a new pyramid over `z` coarser zooms that receives playable tiles
/// row by row (`push_playable_tile`, whose contract is a step of
/// `push_all`) and is then finished (`finish`, whose contract is
/// `finish_levels`) emits, over all those calls, the tile `k` zoom levels
/// above each playable tile, for every `k` from 1 to `z`, exactly once, and
/// no other tile; afterwards every level is empty again, and a second
/// `finish` emits nothing.
pub proof fn lemma_pyramid_emits_each_ancestor_once(z: u8, side: int, tiles: Seq<(i32, i32, Seq<u8>)>)
    requires
        rows_nondecreasing(tiles),
    ensures
        push_all(initial_levels(z), level_zooms(z), side, tiles) matches Some(p) && finish_levels(p.0, level_zooms(z), side, 0, z as nat) matches Some(f) && {
            &&& out_keys(p.1 + f.1).no_duplicates()
            &&& forall|t: (u8, i32, i32)| #[trigger] out_keys(p.1 + f.1).contains(t) <==> exists|i: int, k: nat|
                0 <= i < tiles.len() && 1 <= k <= z && t == ((z - k) as u8, #[trigger] ancestor(tiles[i].0, k), ancestor(tiles[i].1, k))
            &&& f.0 == initial_levels(z)
            &&& finish_levels(f.0, level_zooms(z), side, 0, z as nat) == Some((f.0, Seq::<(u8, i32, i32, Seq<u8>)>::empty()))
        },
{
    let zooms = level_zooms(z);
    let n = z as nat;
    lemma_level_zooms_distinct(z);
    let resp = lemma_push_all_keys(z, side, tiles);
    let p = push_all(initial_levels(z), zooms, side, tiles)->Some_0;
    let resf = lemma_finish_levels_keys(p.0, zooms, side, 0, n, resp.0, resp.1, out_keys(p.1));
    let f = finish_levels(p.0, zooms, side, 0, n)->Some_0;
    lemma_out_keys_concat(p.1, f.1);
    let out = out_keys(p.1 + f.1);
    assert(out == out_keys(p.1) + out_keys(f.1));
    assert forall|j: int| 0 <= j < n implies level_inv(empty_level(), #[trigger] resf.0[j], resf.1[j]) by {
        assert(f.0[j] == empty_level());
    }
    if n > 0 {
        assert(resf.0[0] == resp.0[0]);
    }
    assert forall|t: (u8, i32, i32)| #[trigger] out.contains(t) <==> exists|i: int, k: nat|
        0 <= i < tiles.len() && 1 <= k <= z && t == ((z - k) as u8, #[trigger] ancestor(tiles[i].0, k), ancestor(tiles[i].1, k)) by {
        if out.contains(t) {
            assert(in_levels(zooms, resf.1, t));
            let j = choose|j: int| 0 <= j < resf.1.len() && zooms[j] == t.0 && #[trigger] resf.1[j].contains((t.1, t.2));
            lemma_levels_ancestors(tiles, resf.0, resf.1, j);
            let i = choose|i: int| 0 <= i < tiles.len() && (t.1, t.2) == (ancestor(tiles[i].0, (j + 1) as nat), ancestor(tiles[i].1, (j + 1) as nat));
            let k = (j + 1) as nat;
            assert(t == ((z - k) as u8, ancestor(tiles[i].0, k), ancestor(tiles[i].1, k)));
        }
        if exists|i: int, k: nat| 0 <= i < tiles.len() && 1 <= k <= z && t == ((z - k) as u8, #[trigger] ancestor(tiles[i].0, k), ancestor(tiles[i].1, k)) {
            let (i, k) = choose|i: int, k: nat| 0 <= i < tiles.len() && 1 <= k <= z && t == ((z - k) as u8, #[trigger] ancestor(tiles[i].0, k), ancestor(tiles[i].1, k));
            let j = k - 1;
            lemma_levels_ancestors(tiles, resf.0, resf.1, j);
            assert(resf.1[j].contains((t.1, t.2)));
            assert(zooms[j] == t.0);
            assert(in_levels(zooms, resf.1, t));
        }
    }
    assert(f.0 =~= initial_levels(z));
    lemma_finish_empty_levels(f.0, zooms, side, 0, n);
}

} // verus!
