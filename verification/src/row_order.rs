//! Playable tiles streamed row by row are never refused by the pyramid:
//! every level then receives its child rows in order too.
use vstd::prelude::*;
use crate::reducer::{cascade, emit_row, feed_level, finish_levels, half_floor, level_finish, level_flush, level_ingest, spread, LevelState};

verus! {

/// A level's parent row is never below the parent of the row it receives,
/// and it builds no parent row while it receives none.
pub open spec fn level_ok(s: LevelState) -> bool {
    &&& s.current_y is None ==> s.active is None
    &&& s.active matches Some(b) ==> (s.current_y matches Some(c) && b <= half_floor(c))
}

/// The row a level receives lies above the parent row the level below builds.
pub open spec fn level_linked(lower: LevelState, upper: LevelState) -> bool {
    upper.current_y matches Some(c) ==> (lower.active matches Some(b) && c < b)
}

pub open spec fn linked_at(states: Seq<LevelState>, j: int) -> bool {
    level_linked(states[j], states[j + 1])
}

/// Levels `from` and above are in row order (see `level_ok`, `level_linked`).
pub open spec fn ordered_from(states: Seq<LevelState>, from: int) -> bool {
    &&& forall|j: int| from <= j < states.len() ==> #[trigger] level_ok(states[j])
    &&& forall|j: int| from <= j && j + 1 < states.len() ==> #[trigger] linked_at(states, j)
}

/// Every level of the pyramid receives its rows in order.
pub open spec fn rows_in_order(states: Seq<LevelState>) -> bool {
    ordered_from(states, 0)
}

/// The tiles all lie in row `a`.
pub open spec fn all_in_row(items: Seq<(i32, i32, Seq<u8>)>, a: i32) -> bool {
    forall|i: int| 0 <= i < items.len() ==> (#[trigger] items[i]).1 == a
}

/// The rows of the tiles never go up.
pub open spec fn rows_nondecreasing(items: Seq<(i32, i32, Seq<u8>)>) -> bool {
    forall|i: int, j: int| 0 <= i < j < items.len() ==> (#[trigger] items[i]).1 <= (#[trigger] items[j]).1
}

/// The active parent row never moves back.
pub open spec fn active_grows(before: LevelState, after: LevelState) -> bool {
    before.active matches Some(b) ==> (after.active matches Some(b2) && b <= b2)
}

proof fn lemma_half_floor_mono(x: i32, y: i32)
    requires
        x <= y,
    ensures
        half_floor(x) <= half_floor(y),
{
    assert((x as int) / 2 <= (y as int) / 2);
}

proof fn lemma_emit_row_in_row(even: Seq<(i32, Seq<u8>)>, odd: Seq<(i32, Seq<u8>)>, py: i32, side: int, zoom: u8)
    ensures
        all_in_row(emit_row(even, odd, py, side, zoom), py),
{
}

/// One tile at or below the row being received is accepted; whatever it
/// completes lies in the parent row built before, which then moves down.
proof fn lemma_ingest_ordered(s: LevelState, x: i32, y: i32, cells: Seq<u8>, side: int, zoom: u8)
    requires
        level_ok(s),
        s.current_y matches Some(c) ==> c <= y,
    ensures
        level_ingest(s, x, y, cells, side, zoom) matches Some(r) && {
            &&& level_ok(r.0)
            &&& r.0.current_y == Some(y)
            &&& active_grows(s, r.0)
            &&& (s.current_y == Some(y) ==> r.1.len() == 0 && r.0.active == s.active)
            &&& (r.1.len() > 0 ==> (s.active matches Some(b) && (r.0.active matches Some(b2) && b < b2) && all_in_row(r.1, b)))
        },
{
    match s.current_y {
        None => {},
        Some(cy) => {
            if y != cy {
                let py = half_floor(cy);
                lemma_half_floor_mono(cy, y);
                if let Some(b) = s.active {
                    lemma_emit_row_in_row(s.even, s.odd, b, side, zoom);
                }
                let f = level_flush(s, side, zoom);
                assert(f.0.active == Some(py));
            }
        },
    }
}

/// Tiles of one row, at or below the row being received, are all accepted.
pub(crate) proof fn lemma_feed_same_row(st: LevelState, items: Seq<(i32, i32, Seq<u8>)>, a: i32, side: int, zoom: u8)
    requires
        level_ok(st),
        all_in_row(items, a),
        items.len() > 0 ==> (st.current_y matches Some(c) ==> c <= a),
    ensures
        feed_level(st, items, side, zoom) matches Some(r) && {
            &&& level_ok(r.0)
            &&& (items.len() == 0 ==> r.0 == st && r.1.len() == 0)
            &&& (items.len() > 0 ==> r.0.current_y == Some(a))
            &&& active_grows(st, r.0)
            &&& (r.1.len() > 0 ==> (st.active matches Some(b) && (r.0.active matches Some(b2) && b < b2) && all_in_row(r.1, b)))
        },
    decreases items.len(),
{
    if items.len() > 0 {
        let prefix = items.drop_last();
        assert(all_in_row(prefix, a)) by {
            assert forall|i: int| 0 <= i < prefix.len() implies (#[trigger] prefix[i]).1 == a by {
                assert(prefix[i] == items[i]);
            }
        }
        lemma_feed_same_row(st, prefix, a, side, zoom);
        let r1 = feed_level(st, prefix, side, zoom)->Some_0;
        let it = items.last();
        assert(it.1 == a);
        lemma_ingest_ordered(r1.0, it.0, it.1, it.2, side, zoom);
        let r2 = level_ingest(r1.0, it.0, it.1, it.2, side, zoom)->Some_0;
        if prefix.len() > 0 {
            assert(r2.1.len() == 0);
            assert(r1.1 + r2.1 =~= r1.1);
        } else {
            assert(r1.1 + r2.1 =~= r2.1);
        }
    }
}

/// Cascading tiles of one row from level `l`, when that row is at or below
/// the row level `l` receives and above the parent row of the level below,
/// is accepted at every level and keeps levels `from` and above in order.
pub(crate) proof fn lemma_cascade_ordered(states: Seq<LevelState>, zooms: Seq<u8>, side: int, l: nat, items: Seq<(i32, i32, Seq<u8>)>, a: i32, from: int)
    requires
        0 <= from <= l,
        ordered_from(states, from),
        all_in_row(items, a),
        l < states.len() && items.len() > 0 ==> (states[l as int].current_y matches Some(c) ==> c <= a),
        from < l <= states.len() && items.len() > 0 ==> (states[l - 1].active matches Some(b) && a < b),
    ensures
        cascade(states, zooms, side, l, items) matches Some(r) && {
            &&& r.0.len() == states.len()
            &&& ordered_from(r.0, from)
            &&& forall|j: int| 0 <= j < l && j < states.len() ==> r.0[j] == states[j]
            &&& (l < states.len() && items.len() > 0 ==> r.0[l as int].current_y == Some(a))
        },
    decreases states.len() - l,
{
    if l < states.len() {
        let st = states[l as int];
        lemma_feed_same_row(st, items, a, side, zooms[l as int]);
        let r1 = feed_level(st, items, side, zooms[l as int])->Some_0;
        let st2 = states.update(l as int, r1.0);
        assert(ordered_from(st2, from)) by {
            assert forall|j: int| from <= j < st2.len() implies #[trigger] level_ok(st2[j]) by {
                if j != l {
                    assert(level_ok(states[j]));
                }
            }
            assert forall|j: int| from <= j && j + 1 < st2.len() implies #[trigger] linked_at(st2, j) by {
                if j == l {
                    assert(linked_at(states, j));
                } else if j + 1 == l {
                    if items.len() == 0 {
                        assert(linked_at(states, j));
                    }
                } else {
                    assert(linked_at(states, j));
                }
            }
        }
        let b_old: i32 = match st.active {
            Some(b) => b,
            None => 0,
        };
        if l + 1 < states.len() && r1.1.len() > 0 {
            assert(linked_at(states, l as int));
        }
        lemma_cascade_ordered(st2, zooms, side, l + 1, r1.1, b_old, from);
        let r2 = cascade(st2, zooms, side, l + 1, r1.1)->Some_0;
        assert(cascade(states, zooms, side, l, items) == Some((r2.0, crate::reducer::tag_tiles(zooms[l as int], r1.1) + r2.1)));
        assert(r2.0[l as int] == st2[l as int]);
        assert forall|j: int| 0 <= j < l && j < states.len() implies r2.0[j] == states[j] by {
            assert(r2.0[j] == st2[j]);
        }
    }
}

/// Spreading the tiles a finished level `l` emitted, in row order and none
/// above the row level `l + 1` receives, is accepted everywhere above.
proof fn lemma_spread_ordered(states: Seq<LevelState>, zooms: Seq<u8>, side: int, l: nat, prod: Seq<(i32, i32, Seq<u8>)>)
    requires
        ordered_from(states, l + 1int),
        rows_nondecreasing(prod),
        l + 1 < states.len() && prod.len() > 0 ==> (states[l + 1int].current_y matches Some(c) ==> c <= prod[0].1),
    ensures
        spread(states, zooms, side, l, prod) matches Some(r) && {
            &&& r.0.len() == states.len()
            &&& ordered_from(r.0, l + 1int)
            &&& forall|j: int| 0 <= j <= l && j < states.len() ==> r.0[j] == states[j]
            &&& (l + 1 < states.len() && prod.len() > 0 ==> r.0[l + 1int].current_y == Some(prod.last().1))
        },
    decreases prod.len(),
{
    if prod.len() > 0 {
        let pre = prod.drop_last();
        assert(rows_nondecreasing(pre)) by {
            assert forall|i: int, j: int| 0 <= i < j < pre.len() implies (#[trigger] pre[i]).1 <= (#[trigger] pre[j]).1 by {
                assert(pre[i] == prod[i] && pre[j] == prod[j]);
            }
        }
        if pre.len() > 0 {
            assert(pre[0] == prod[0]);
        }
        lemma_spread_ordered(states, zooms, side, l, pre);
        let r1 = spread(states, zooms, side, l, pre)->Some_0;
        let t = prod.last();
        if pre.len() > 0 {
            assert(pre.last() == prod[prod.len() - 2]);
        }
        let one = seq![t];
        assert(all_in_row(one, t.1));
        lemma_cascade_ordered(r1.0, zooms, side, l + 1, one, t.1, (l + 1) as int);
    }
}

/// Finishing level `l` of levels in row order: what it emits comes row by
/// row, none above the row level `l + 1` receives, and the levels above stay
/// in order.
pub(crate) proof fn lemma_finish_level_rows(states: Seq<LevelState>, zooms: Seq<u8>, side: int, l: nat)
    requires
        ordered_from(states, l as int),
        l < states.len(),
    ensures
        ({
            let fin = level_finish(states[l as int], side, zooms[l as int]);
            &&& ordered_from(states.update(l as int, fin.0), l + 1int)
            &&& rows_nondecreasing(fin.1)
            &&& l + 1 < states.len() && fin.1.len() > 0 ==> (states[l + 1int].current_y matches Some(c) ==> c <= fin.1[0].1)
        }),
{
    let n = states.len();
    let s = states[l as int];
    assert(level_ok(s));
    let zoom = zooms[l as int];
    let f = level_flush(s, side, zoom);
    let fin = level_finish(s, side, zoom);
    let st2 = states.update(l as int, fin.0);
    assert(ordered_from(st2, l + 1int)) by {
        assert forall|j: int| l + 1 <= j < st2.len() implies #[trigger] level_ok(st2[j]) by {
            assert(level_ok(states[j]));
        }
        assert forall|j: int| l + 1 <= j && j + 1 < st2.len() implies #[trigger] linked_at(st2, j) by {
            assert(linked_at(states, j));
        }
    }
    // What the level emits: the parent row built before (if the last
    // row starts another), then the parent row of the last row.
    let rest = match f.0.active {
        Some(py) => emit_row(f.0.even, f.0.odd, py, side, zoom),
        None => Seq::empty(),
    };
    assert(fin.1 == f.1 + rest);
    if let Some(cy) = s.current_y {
        let py = half_floor(cy);
        if let Some(b) = s.active {
            lemma_emit_row_in_row(s.even, s.odd, b, side, zoom);
        }
        lemma_emit_row_in_row(f.0.even, f.0.odd, py, side, zoom);
        assert(f.0.active == Some(py));
        assert(rows_nondecreasing(fin.1)) by {
            assert forall|i: int, j: int| 0 <= i < j < fin.1.len() implies (#[trigger] fin.1[i]).1 <= (#[trigger] fin.1[j]).1 by {
                if i < f.1.len() {
                    assert(fin.1[i] == f.1[i]);
                } else {
                    assert(fin.1[i] == rest[i - f.1.len()]);
                }
                if j < f.1.len() {
                    assert(fin.1[j] == f.1[j]);
                } else {
                    assert(fin.1[j] == rest[j - f.1.len()]);
                }
            }
        }
        if l + 1 < n && fin.1.len() > 0 {
            assert(linked_at(states, l as int));
            if f.1.len() > 0 {
                assert(fin.1[0] == f.1[0]);
            } else {
                assert(fin.1[0] == rest[0]);
            }
        }
    } else {
        assert(fin.1 =~= Seq::<(i32, i32, Seq<u8>)>::empty());
    }
}

/// Finishing levels `l` and above, when they are in row order, is accepted.
proof fn lemma_finish_ordered(states: Seq<LevelState>, zooms: Seq<u8>, side: int, l: nat, n: nat)
    requires
        ordered_from(states, l as int),
        n == states.len(),
    ensures
        finish_levels(states, zooms, side, l, n) is Some,
    decreases n - l,
{
    if l < n {
        let fin = level_finish(states[l as int], side, zooms[l as int]);
        let st2 = states.update(l as int, fin.0);
        lemma_finish_level_rows(states, zooms, side, l);
        lemma_spread_ordered(st2, zooms, side, l, fin.1);
        let r1 = spread(st2, zooms, side, l, fin.1)->Some_0;
        lemma_finish_ordered(r1.0, zooms, side, l + 1, n);
    }
}

/// Law: a pyramid whose levels are in row order accepts a playable tile
/// that is not above the last row it received, and stays in row order.
pub proof fn lemma_push_in_row_order(states: Seq<LevelState>, zooms: Seq<u8>, side: int, x: i32, y: i32, cells: Seq<u8>)
    requires
        rows_in_order(states),
        states.len() > 0 ==> (states[0].current_y matches Some(c) ==> c <= y),
    ensures
        cascade(states, zooms, side, 0, seq![(x, y, cells)]) matches Some(r) && rows_in_order(r.0) && r.0.len() == states.len(),
{
    let one = seq![(x, y, cells)];
    assert(all_in_row(one, y));
    lemma_cascade_ordered(states, zooms, side, 0, one, y, 0);
}

/// Law: a pyramid whose levels are in row order can always be finished.
pub proof fn lemma_finish_in_row_order(states: Seq<LevelState>, zooms: Seq<u8>, side: int)
    requires
        rows_in_order(states),
    ensures
        finish_levels(states, zooms, side, 0, states.len()) is Some,
{
    lemma_finish_ordered(states, zooms, side, 0, states.len());
}

} // verus!
