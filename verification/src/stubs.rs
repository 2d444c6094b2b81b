//! Short dangling road stubs: from every interior road end (a road cell with
//! exactly one road edge neighbour) the road is followed cell by cell until it
//! ends, forks, reaches the boundary or grows too long.
use vstd::prelude::*;
use crate::cells::{
    cardinal_count, col_of, grid_ok, in_grid, is_boundary_cell, lemma_pos_in_range,
    lemma_pos_of_index, lemma_index_of_pos, on_boundary, pos, road_neighbor_count, row_of, ROAD_CODE,
};
use crate::passes::lemma_side_pos;

verus! {

/// How a walk along a road stub ended.
#[derive(PartialEq, Eq, Structural, Clone, Copy, Debug)]
pub enum WalkEnd {
    /// The road stops: no further road cell.
    DeadEnd,
    /// The road forks or meets a cell with three or more road neighbours.
    Junction,
    /// The road reaches the outermost ring.
    Boundary,
    /// The road is longer than the limit, or runs in a loop.
    TooLong,
}

/// The road edge neighbour of `cur` in direction (dx, dy), if it exists and is
/// not `prev`.
pub open spec fn step_to(cells: Seq<u8>, side: int, prev: int, cur: int, dx: int, dy: int) -> Seq<usize> {
    let x = col_of(cur, side) + dx;
    let y = row_of(cur, side) + dy;
    if in_grid(x, y, side) && pos(x, y, side) != prev && cells[pos(x, y, side)] == ROAD_CODE {
        seq![pos(x, y, side) as usize]
    } else {
        Seq::empty()
    }
}

/// The road edge neighbours of `cur` other than `prev`, in the order up, down,
/// left, right.
pub open spec fn step_candidates(cells: Seq<u8>, side: int, prev: int, cur: int) -> Seq<usize> {
    step_to(cells, side, prev, cur, 0, -1) + step_to(cells, side, prev, cur, 0, 1) + step_to(
        cells,
        side,
        prev,
        cur,
        -1,
        0,
    ) + step_to(cells, side, prev, cur, 1, 0)
}

/// Follows the road from `cur` (having come from `prev`) and returns the cells
/// walked and how the walk ended.
pub open spec fn walk(cells: Seq<u8>, side: int, max: nat, path: Seq<usize>, prev: int, cur: int) -> (
    Seq<usize>,
    WalkEnd,
)
    decreases (max + 2 - path.len()),
{
    if path.len() >= max + 2 {
        (path, WalkEnd::TooLong)
    } else {
        let cands = step_candidates(cells, side, prev, cur);
        if cands.len() == 0 {
            (path, WalkEnd::DeadEnd)
        } else if cands.len() > 1 {
            (path, WalkEnd::Junction)
        } else {
            let next = cands[0] as int;
            if path.contains(next as usize) {
                (path, WalkEnd::TooLong)
            } else {
                let p2 = path.push(next as usize);
                if on_boundary(col_of(next, side), row_of(next, side), side) {
                    (p2, WalkEnd::Boundary)
                } else if cardinal_count(cells, side, col_of(next, side), row_of(next, side), ROAD_CODE) >= 3 {
                    (p2, WalkEnd::Junction)
                } else if p2.len() > max {
                    (p2, WalkEnd::TooLong)
                } else {
                    walk(cells, side, max, p2, cur, next)
                }
            }
        }
    }
}

/// The stub that starts at position `k`, if it is to be removed: `k` is an
/// interior road end and the walk from it meets a junction, or ends within
/// `max` cells, without reaching the boundary or growing too long.
pub open spec fn stub_at(cells: Seq<u8>, side: int, max: nat, k: int) -> Option<Seq<usize>> {
    let x = col_of(k, side);
    let y = row_of(k, side);
    if cells[k] == ROAD_CODE && !on_boundary(x, y, side) && cardinal_count(cells, side, x, y, ROAD_CODE) == 1 {
        let w = walk(cells, side, max, seq![k as usize], k, k);
        if w.1 == WalkEnd::TooLong || w.1 == WalkEnd::Boundary {
            None
        } else if w.1 == WalkEnd::Junction || w.0.len() <= max {
            Some(w.0)
        } else {
            None
        }
    } else {
        None
    }
}

/// Marks every cell of a removable stub starting before position `n`.
pub open spec fn stub_mask(cells: Seq<u8>, side: int, max: nat, n: nat) -> Seq<bool>
    decreases n,
{
    if n == 0 {
        Seq::new(cells.len(), |j: int| false)
    } else {
        let m = stub_mask(cells, side, max, (n - 1) as nat);
        match stub_at(cells, side, max, n - 1) {
            Some(path) => Seq::new(m.len(), |j: int| m[j] || path.contains(j as usize)),
            None => m,
        }
    }
}

pub proof fn lemma_stub_mask_len(cells: Seq<u8>, side: int, max: nat, n: nat)
    ensures
        stub_mask(cells, side, max, n).len() == cells.len(),
    decreases n,
{
    if n > 0 {
        lemma_stub_mask_len(cells, side, max, (n - 1) as nat);
    }
}

pub proof fn lemma_push_contains(s: Seq<usize>, e: usize, v: usize)
    ensures
        s.push(e).contains(v) <==> (s.contains(v) || e == v),
{
    if s.contains(v) {
        let j = choose|j: int| 0 <= j < s.len() && s[j] == v;
        assert(s.push(e)[j] == v);
    }
    if e == v {
        assert(s.push(e)[s.len() as int] == v);
    }
    if s.push(e).contains(v) {
        let j = choose|j: int| 0 <= j < s.push(e).len() && s.push(e)[j] == v;
        if j < s.len() {
            assert(s[j] == v);
        }
    }
}

/// The step from `cur` in direction (dx, dy): adds one to `count` and records
/// the first such step.
fn probe(
    cells: &Vec<u8>,
    side: usize,
    prev: usize,
    cur: usize,
    dx: usize,
    dy: usize,
    count: &mut usize,
    first: &mut usize,
)
    requires
        grid_ok(cells@, side as int),
        side > 0,
        cur < cells@.len(),
        dx <= 2,
        dy <= 2,
        *old(count) <= 3,
    ensures
        *final(count) == *old(count) + step_to(cells@, side as int, prev as int, cur as int, dx - 1, dy - 1).len(),
        *old(count) == 0 && *final(count) == 1 ==> *final(first) == step_to(cells@, side as int, prev as int, cur as int, dx - 1, dy - 1)[0],
        *old(count) != 0 ==> *final(first) == *old(first),
        *final(count) == *old(count) ==> *final(first) == *old(first),
        *final(first) < cells@.len() || *final(first) == *old(first),
{
    let n = cells.len();
    proof {
        lemma_pos_of_index(cur as int, side as int);
    }
    let x = cur % side;
    let y = cur / side;
    if (dx >= 1 || x >= 1) && (dy >= 1 || y >= 1) && dx <= side - x && dy <= side - y {
        let nx = x + dx - 1;
        let ny = y + dy - 1;
        proof {
            lemma_pos_in_range(nx as int, ny as int, side as int);
        }
        let k = ny * side + nx;
        if k != prev && cells[k] == ROAD_CODE {
            if *count == 0 {
                *first = k;
            }
            *count = *count + 1;
        }
    }
}

/// Follows the road from the interior road end `start`.
fn walk_stub(cells: &Vec<u8>, side: usize, max: usize, start: usize) -> (res: (Vec<usize>, WalkEnd))
    requires
        grid_ok(cells@, side as int),
        start < cells@.len(),
    ensures
        (res.0@, res.1) == walk(cells@, side as int, max as nat, seq![start], start as int, start as int),
        forall|i: int| 0 <= i < res.0@.len() ==> res.0@[i] < cells@.len(),
{
    let ghost target = walk(cells@, side as int, max as nat, seq![start], start as int, start as int);
    let n = cells.len();
    proof {
        lemma_side_pos(n as int, side as int, start as int);
    }
    let mut path: Vec<usize> = Vec::new();
    path.push(start);
    let mut previous: usize = start;
    let mut current: usize = start;
    proof {
        assert(path@ =~= seq![start]);
    }
    loop
        invariant
            grid_ok(cells@, side as int),
            n == cells@.len(),
            side > 0,
            current < n,
            1 <= path@.len() <= max + 1,
            forall|i: int| 0 <= i < path@.len() ==> path@[i] < n,
            walk(cells@, side as int, max as nat, path@, previous as int, current as int) == target,
            target == walk(cells@, side as int, max as nat, seq![start], start as int, start as int),
        decreases max + 2 - path@.len(),
    {
        let ghost cands = step_candidates(cells@, side as int, previous as int, current as int);
        let mut count: usize = 0;
        let mut first: usize = 0;
        probe(cells, side, previous, current, 1, 0, &mut count, &mut first);
        probe(cells, side, previous, current, 1, 2, &mut count, &mut first);
        probe(cells, side, previous, current, 0, 1, &mut count, &mut first);
        probe(cells, side, previous, current, 2, 1, &mut count, &mut first);
        proof {
            assert(count == cands.len());
            if count == 1 {
                assert(first == cands[0]);
            }
        }
        if count == 0 {
            return (path, WalkEnd::DeadEnd);
        }
        if count > 1 {
            return (path, WalkEnd::Junction);
        }
        let next = first;
        let mut seen = false;
        let mut i: usize = 0;
        while i < path.len()
            invariant
                0 <= i <= path@.len(),
                seen == path@.take(i as int).contains(next),
            decreases path@.len() - i,
        {
            if path[i] == next {
                seen = true;
            }
            proof {
                assert(path@.take(i + 1) =~= path@.take(i as int).push(path@[i as int]));
                lemma_push_contains(path@.take(i as int), path@[i as int], next);
            }
            i = i + 1;
        }
        proof {
            assert(path@.take(path@.len() as int) =~= path@);
        }
        if seen {
            return (path, WalkEnd::TooLong);
        }
        previous = current;
        current = next;
        path.push(current);
        proof {
            lemma_pos_of_index(current as int, side as int);
        }
        if is_boundary_cell(current % side, current / side, side) {
            return (path, WalkEnd::Boundary);
        }
        if road_neighbor_count(cells, side, current % side, current / side) >= 3 {
            return (path, WalkEnd::Junction);
        }
        if path.len() > max {
            return (path, WalkEnd::TooLong);
        }
    }
}

/// Marks the cells of every removable stub (see `stub_mask`).
pub fn dangling_stub_mask(cells: &Vec<u8>, side: usize, max_stub_len: usize) -> (mask: Vec<bool>)
    requires
        grid_ok(cells@, side as int),
    ensures
        mask@ == stub_mask(cells@, side as int, max_stub_len as nat, cells@.len()),
{
    let n = cells.len();
    let mut mask: Vec<bool> = Vec::new();
    let mut i: usize = 0;
    while i < n
        invariant
            0 <= i <= n,
            mask@ =~= Seq::new(i as nat, |j: int| false),
        decreases n - i,
    {
        mask.push(false);
        i = i + 1;
    }
    let mut k: usize = 0;
    while k < n
        invariant
            grid_ok(cells@, side as int),
            n == cells@.len(),
            0 <= k <= n,
            mask@ == stub_mask(cells@, side as int, max_stub_len as nat, k as nat),
            mask@.len() == n,
        decreases n - k,
    {
        proof {
            lemma_side_pos(n as int, side as int, k as int);
            lemma_pos_of_index(k as int, side as int);
            lemma_stub_mask_len(cells@, side as int, max_stub_len as nat, k as nat);
        }
        let x = k % side;
        let y = k / side;
        if cells[k] == ROAD_CODE && !is_boundary_cell(x, y, side) && road_neighbor_count(cells, side, x, y) == 1 {
            let (path, end) = walk_stub(cells, side, max_stub_len, k);
            if !(end == WalkEnd::TooLong || end == WalkEnd::Boundary) && (end == WalkEnd::Junction || path.len() <= max_stub_len) {
                let ghost m0 = mask@;
                let mut i: usize = 0;
                while i < path.len()
                    invariant
                        0 <= i <= path@.len(),
                        m0.len() == n,
                        forall|j: int| 0 <= j < path@.len() ==> path@[j] < n,
                        mask@ =~= Seq::new(n as nat, |j: int| m0[j] || path@.take(i as int).contains(j as usize)),
                    decreases path@.len() - i,
                {
                    let p = path[i];
                    mask.set(p, true);
                    proof {
                        assert(path@.take(i + 1) =~= path@.take(i as int).push(p));
                        assert forall|j: int| 0 <= j < n implies mask@[j] == (m0[j] || path@.take(i + 1).contains(j as usize)) by {
                            if j == p as int {
                                assert(path@.take(i + 1)[i as int] == p);
                            }
                        }
                    }
                    i = i + 1;
                }
                proof {
                    assert(path@.take(path@.len() as int) =~= path@);
                }
            }
        }
        k = k + 1;
    }
    mask
}

} // verus!
