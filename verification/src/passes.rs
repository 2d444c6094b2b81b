//! Whole-raster passes built from the neighbourhood rules of `cells`:
//! a row-major scan that selects cells, and the two ways selected cells are
//! rewritten (all at once to one code, or one after another to the dominant
//! neighbouring code).
use vstd::prelude::*;
use crate::cells::{
    b2i, cardinal_code_count, col_of, diagonal_count, dominant_code, dominant_non_road_neighbor,
    grid_ok, has_code, lemma_pos_of_index, on_boundary, row_of, cardinal_count, ROAD_CODE,
};

verus! {

/// Row-major positions below `n` that satisfy `pred`, in ascending order.
pub open spec fn scan_filter(pred: spec_fn(int) -> bool, n: nat) -> Seq<usize>
    decreases n,
{
    if n == 0 {
        Seq::empty()
    } else {
        let prev = scan_filter(pred, (n - 1) as nat);
        if pred(n - 1) {
            prev.push((n - 1) as usize)
        } else {
            prev
        }
    }
}

/// Positions whose flag is set.
pub open spec fn flagged(mask: Seq<bool>) -> spec_fn(int) -> bool {
    |k: int| 0 <= k < mask.len() && mask[k]
}

/// The positions whose flag is set, in ascending order.
pub fn flagged_positions(mask: &Vec<bool>) -> (list: Vec<usize>)
    ensures
        list@ == scan_filter(flagged(mask@), mask@.len()),
        forall|i: int| 0 <= i < list@.len() ==> list@[i] < mask@.len(),
{
    let n = mask.len();
    let mut list: Vec<usize> = Vec::new();
    let mut k: usize = 0;
    while k < n
        invariant
            0 <= k <= n,
            n == mask@.len(),
            list@ == scan_filter(flagged(mask@), k as nat),
        decreases n - k,
    {
        if mask[k] {
            list.push(k);
        }
        k = k + 1;
    }
    proof {
        lemma_scan_filter_bounds(flagged(mask@), n as nat);
    }
    list
}

/// Rewrites the listed cells one after another, each to the dominant non-road
/// code of its neighbours in the raster as it stands at that moment.
pub open spec fn replace_all(cells: Seq<u8>, side: int, list: Seq<usize>) -> Seq<u8>
    decreases list.len(),
{
    if list.len() == 0 {
        cells
    } else {
        let c = replace_all(cells, side, list.drop_last());
        let k = list.last() as int;
        c.update(k, dominant_code(c, side, col_of(k, side), row_of(k, side)))
    }
}

/// Interior cell whose opposite edge neighbours (above and below, or left and
/// right) both hold `code`, while it does not.
pub open spec fn gap_pred(cells: Seq<u8>, side: int, code: u8) -> spec_fn(int) -> bool {
    |k: int|
        {
            let x = col_of(k, side);
            let y = row_of(k, side);
            &&& 1 <= x && x + 1 < side && 1 <= y && y + 1 < side
            &&& cells[k] != code
            &&& ((has_code(cells, side, x, y - 1, code) && has_code(cells, side, x, y + 1, code)) || (
            has_code(cells, side, x - 1, y, code) && has_code(cells, side, x + 1, y, code)))
        }
}

/// One gap-bridging pass: every gap cell of the raster as it stood before the
/// pass takes `code`.
pub open spec fn bridged(cells: Seq<u8>, side: int, code: u8) -> Seq<u8> {
    Seq::new(cells.len(), |k: int| if gap_pred(cells, side, code)(k) { code } else { cells[k] })
}

pub proof fn lemma_scan_filter_bounds(pred: spec_fn(int) -> bool, n: nat)
    requires
        n <= usize::MAX + 1,
    ensures
        scan_filter(pred, n).len() <= n,
        forall|i: int|
            0 <= i < scan_filter(pred, n).len() ==> scan_filter(pred, n)[i] < n && pred(
                scan_filter(pred, n)[i] as int,
            ),
        forall|i: int, j: int|
            0 <= i < j < scan_filter(pred, n).len() ==> scan_filter(pred, n)[i] < scan_filter(
                pred,
                n,
            )[j],
    decreases n,
{
    if n > 0 {
        lemma_scan_filter_bounds(pred, (n - 1) as nat);
        let prev = scan_filter(pred, (n - 1) as nat);
        let cur = scan_filter(pred, n);
        if pred(n - 1) {
            assert(cur == prev.push((n - 1) as usize));
            assert forall|i: int| 0 <= i < prev.len() implies cur[i] == prev[i] by {}
        } else {
            assert(cur == prev);
        }
    }
}

/// A position is listed exactly when it is below `n` and satisfies `pred`.
pub proof fn lemma_scan_filter_contains(pred: spec_fn(int) -> bool, n: nat, k: int)
    requires
        0 <= k <= usize::MAX,
        n <= usize::MAX + 1,
    ensures
        scan_filter(pred, n).contains(k as usize) <==> (k < n && pred(k)),
    decreases n,
{
    lemma_scan_filter_bounds(pred, n);
    if n > 0 {
        lemma_scan_filter_contains(pred, (n - 1) as nat, k);
        let prev = scan_filter(pred, (n - 1) as nat);
        lemma_scan_filter_bounds(pred, (n - 1) as nat);
        if pred(n - 1) {
            assert(scan_filter(pred, n) == prev.push((n - 1) as usize));
            if k == n - 1 {
                assert(scan_filter(pred, n)[prev.len() as int] == k as usize);
            }
            if scan_filter(pred, n).contains(k as usize) {
                let i = choose|i: int|
                    0 <= i < scan_filter(pred, n).len() && scan_filter(pred, n)[i] == k as usize;
                if i < prev.len() {
                    assert(prev[i] == k as usize);
                }
            }
            if k < n - 1 && pred(k) {
                let i = choose|i: int| 0 <= i < prev.len() && prev[i] == k as usize;
                assert(scan_filter(pred, n)[i] == k as usize);
            }
        } else {
            assert(scan_filter(pred, n) == prev);
        }
    }
}

pub proof fn lemma_side_pos(len: int, side: int, k: int)
    by (nonlinear_arith)
    requires
        len == side * side,
        side >= 0,
        0 <= k < len,
    ensures
        side > 0,
{
}

/// Rewrites the listed cells one after another to the dominant non-road code
/// of their neighbours.
pub fn replace_with_dominant(cells: &mut Vec<u8>, side: usize, list: &Vec<usize>)
    requires
        grid_ok(old(cells)@, side as int),
        forall|i: int| 0 <= i < list@.len() ==> list@[i] < old(cells)@.len(),
    ensures
        final(cells)@ == replace_all(old(cells)@, side as int, list@),
        final(cells)@.len() == old(cells)@.len(),
{
    let ghost start = cells@;
    let mut i: usize = 0;
    while i < list.len()
        invariant
            0 <= i <= list@.len(),
            grid_ok(start, side as int),
            forall|j: int| 0 <= j < list@.len() ==> list@[j] < start.len(),
            cells@ == replace_all(start, side as int, list@.take(i as int)),
            cells@.len() == start.len(),
        decreases list@.len() - i,
    {
        let k = list[i];
        proof {
            lemma_side_pos(start.len() as int, side as int, k as int);
            lemma_pos_of_index(k as int, side as int);
        }
        let x = k % side;
        let y = k / side;
        let c = dominant_non_road_neighbor(cells, side, x, y);
        cells.set(k, c);
        proof {
            assert(list@.take(i + 1).drop_last() =~= list@.take(i as int));
            assert(list@.take(i + 1).last() == k);
        }
        i = i + 1;
    }
    assert(list@.take(list@.len() as int) =~= list@);
}

/// One gap-bridging pass for `code` (see `bridged`).
pub fn bridge_gaps_once(cells: &mut Vec<u8>, side: usize, code: u8)
    requires
        grid_ok(old(cells)@, side as int),
    ensures
        final(cells)@ == bridged(old(cells)@, side as int, code),
        final(cells)@.len() == old(cells)@.len(),
{
    let ghost start = cells@;
    let n = cells.len();
    let mut out: Vec<u8> = Vec::new();
    let mut k: usize = 0;
    while k < n
        invariant
            0 <= k <= n,
            n == start.len(),
            cells@ == start,
            grid_ok(start, side as int),
            out@ =~= Seq::new(
                k as nat,
                |j: int| if gap_pred(start, side as int, code)(j) { code } else { start[j] },
            ),
        decreases n - k,
    {
        proof {
            lemma_side_pos(start.len() as int, side as int, k as int);
        }
        let x = k % side;
        let y = k / side;
        proof {
            lemma_pos_of_index(k as int, side as int);
        }
        let mut fill = false;
        if x >= 1 && x + 1 < side && y >= 1 && y + 1 < side && cells[k] != code {
            proof {
                assert((y - 1) * side + x == k - side) by (nonlinear_arith)
                    requires
                        k == y * side + x,
                ;
                assert((y + 1) * side + x == k + side) by (nonlinear_arith)
                    requires
                        k == y * side + x,
                ;
                assert((y + 1) * side + x < side * side) by (nonlinear_arith)
                    requires
                        y + 1 < side,
                        x < side,
                ;
                assert(k >= side) by (nonlinear_arith)
                    requires
                        k == y * side + x,
                        y >= 1,
                        x >= 0,
                        side >= 0,
                ;
            }
            let up = cells[k - side] == code;
            let down = cells[k + side] == code;
            let left = cells[k - 1] == code;
            let right = cells[k + 1] == code;
            fill = (up && down) || (left && right);
        }
        out.push(if fill { code } else { cells[k] });
        k = k + 1;
    }
    *cells = out;
}

} // verus!
