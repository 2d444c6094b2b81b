//! Edge-connected components of the cells that hold one code, found by a
//! breadth-first search from each not yet visited cell in row-major order.
//! Neighbours are visited in the order up, down, left, right.
use vstd::prelude::*;
use std::collections::VecDeque;
use crate::cells::{col_of, grid_ok, in_grid, is_boundary_cell, lemma_index_of_pos, lemma_pos_in_range, lemma_pos_of_index, on_boundary, pos, row_of};
use crate::passes::lemma_side_pos;

verus! {

/// Number of cells not yet visited.
pub open spec fn unvisited(v: Seq<bool>) -> nat
    decreases v.len(),
{
    if v.len() == 0 {
        0
    } else {
        unvisited(v.drop_last()) + (if v.last() {
            0nat
        } else {
            1nat
        })
    }
}

/// Search state: which cells were reached, and the queue of cells to expand.
pub open spec fn measure(st: (Seq<bool>, Seq<usize>)) -> nat {
    5 * unvisited(st.0) + st.1.len()
}

/// Cell (x, y) is reached when it exists, was not reached before and holds
/// `code`; it is then marked and queued.
pub open spec fn visit(cells: Seq<u8>, side: int, code: u8, st: (Seq<bool>, Seq<usize>), x: int, y: int) -> (
    Seq<bool>,
    Seq<usize>,
) {
    let k = pos(x, y, side);
    if in_grid(x, y, side) && 0 <= k < st.0.len() && k < cells.len() && !st.0[k] && cells[k] == code {
        (st.0.update(k, true), st.1.push(k as usize))
    } else {
        st
    }
}

/// Visits the neighbours of cell `p` in the order up, down, left, right.
pub open spec fn expand(cells: Seq<u8>, side: int, code: u8, st: (Seq<bool>, Seq<usize>), p: int) -> (
    Seq<bool>,
    Seq<usize>,
) {
    let x = col_of(p, side);
    let y = row_of(p, side);
    visit(
        cells,
        side,
        code,
        visit(cells, side, code, visit(cells, side, code, visit(cells, side, code, st, x, y - 1), x, y + 1), x - 1, y),
        x + 1,
        y,
    )
}

pub proof fn lemma_unvisited_update(v: Seq<bool>, i: int)
    requires
        0 <= i < v.len(),
        !v[i],
    ensures
        unvisited(v.update(i, true)) + 1 == unvisited(v),
    decreases v.len(),
{
    if i == v.len() - 1 {
        assert(v.update(i, true).drop_last() =~= v.drop_last());
    } else {
        lemma_unvisited_update(v.drop_last(), i);
        assert(v.update(i, true).drop_last() =~= v.drop_last().update(i, true));
    }
}

pub proof fn lemma_visit_measure(cells: Seq<u8>, side: int, code: u8, st: (Seq<bool>, Seq<usize>), x: int, y: int)
    ensures
        measure(visit(cells, side, code, st, x, y)) <= measure(st),
        visit(cells, side, code, st, x, y).0.len() == st.0.len(),
{
    let k = pos(x, y, side);
    if in_grid(x, y, side) && 0 <= k < st.0.len() && k < cells.len() && !st.0[k] && cells[k] == code {
        lemma_unvisited_update(st.0, k);
    }
}

pub proof fn lemma_expand_measure(cells: Seq<u8>, side: int, code: u8, st: (Seq<bool>, Seq<usize>), p: int)
    ensures
        measure(expand(cells, side, code, st, p)) <= measure(st),
        expand(cells, side, code, st, p).0.len() == st.0.len(),
{
    let x = col_of(p, side);
    let y = row_of(p, side);
    let s1 = visit(cells, side, code, st, x, y - 1);
    let s2 = visit(cells, side, code, s1, x, y + 1);
    let s3 = visit(cells, side, code, s2, x - 1, y);
    lemma_visit_measure(cells, side, code, st, x, y - 1);
    lemma_visit_measure(cells, side, code, s1, x, y + 1);
    lemma_visit_measure(cells, side, code, s2, x - 1, y);
    lemma_visit_measure(cells, side, code, s3, x + 1, y);
}

/// Breadth-first search: pops the queue front into the component and expands
/// it, until the queue is empty. Returns the reached cells and the component
/// in the order its cells were popped.
pub open spec fn bfs(cells: Seq<u8>, side: int, code: u8, visited: Seq<bool>, queue: Seq<usize>, comp: Seq<usize>) -> (
    Seq<bool>,
    Seq<usize>,
)
    decreases measure((visited, queue)),
{
    if queue.len() == 0 {
        (visited, comp)
    } else {
        let p = queue[0];
        let st = expand(cells, side, code, (visited, queue.drop_first()), p as int);
        proof {
            lemma_expand_measure(cells, side, code, (visited, queue.drop_first()), p as int);
        }
        bfs(cells, side, code, st.0, st.1, comp.push(p))
    }
}

/// The components of the first `n` row-major positions: a position starts a
/// new component when it holds `code` and no earlier search reached it.
pub open spec fn scan_components(cells: Seq<u8>, side: int, code: u8, n: nat) -> (Seq<bool>, Seq<Seq<usize>>)
    decreases n,
{
    if n == 0 {
        (Seq::new(cells.len(), |i: int| false), Seq::empty())
    } else {
        let prev = scan_components(cells, side, code, (n - 1) as nat);
        let r = n - 1;
        if r < cells.len() && r < prev.0.len() && !prev.0[r] && cells[r] == code {
            let res = bfs(cells, side, code, prev.0.update(r, true), seq![r as usize], Seq::empty());
            (res.0, prev.1.push(res.1))
        } else {
            prev
        }
    }
}

/// The edge-connected components of the cells holding `code`, ordered by their
/// first cell in row-major order, each listed in search order.
pub open spec fn components(cells: Seq<u8>, side: int, code: u8) -> Seq<Seq<usize>> {
    scan_components(cells, side, code, cells.len()).1
}

/// Some cell of the component lies in the outermost ring.
pub open spec fn touches_boundary(comp: Seq<usize>, side: int) -> bool {
    exists|i: int| 0 <= i < comp.len() && on_boundary(col_of(comp[i] as int, side), row_of(comp[i] as int, side), side)
}

/// Visiting keeps the queue as a prefix and adds only in-grid positions.
proof fn lemma_visit_prefix(cells: Seq<u8>, side: int, code: u8, st: (Seq<bool>, Seq<usize>), x: int, y: int)
    ensures
        visit(cells, side, code, st, x, y).1.len() >= st.1.len(),
        visit(cells, side, code, st, x, y).1.take(st.1.len() as int) == st.1,
        forall|i: int| st.1.len() <= i < visit(cells, side, code, st, x, y).1.len() ==> (#[trigger] visit(cells, side, code, st, x, y).1[i]) < cells.len(),
{
    let k = pos(x, y, side);
    if in_grid(x, y, side) && 0 <= k < st.0.len() && k < cells.len() && !st.0[k] && cells[k] == code {
        assert(st.1.push(k as usize).take(st.1.len() as int) =~= st.1);
    } else {
        assert(st.1.take(st.1.len() as int) =~= st.1);
    }
}

/// Reaches cell (x, y) if it exists, holds `code` and was not reached yet.
fn try_visit(cells: &Vec<u8>, side: usize, code: u8, visited: &mut Vec<bool>, queue: &mut VecDeque<usize>, x: usize, y: usize)
    requires
        grid_ok(cells@, side as int),
        old(visited)@.len() == cells@.len(),
        x < side,
        y < side,
    ensures
        (final(visited)@, final(queue)@) == visit(cells@, side as int, code, (old(visited)@, old(queue)@), x as int, y as int),
{
    let n = cells.len();
    proof {
        lemma_pos_in_range(x as int, y as int, side as int);
    }
    let k = y * side + x;
    if !visited[k] && cells[k] == code {
        visited.set(k, true);
        queue.push_back(k);
    }
}

/// Searches from `root`, which the caller has already marked as reached.
fn search_component(cells: &Vec<u8>, side: usize, code: u8, visited: &mut Vec<bool>, root: usize) -> (comp: Vec<usize>)
    requires
        grid_ok(cells@, side as int),
        old(visited)@.len() == cells@.len(),
        root < cells@.len(),
    ensures
        (final(visited)@, comp@) == bfs(cells@, side as int, code, old(visited)@, seq![root], Seq::empty()),
        final(visited)@.len() == cells@.len(),
        forall|i: int| 0 <= i < comp@.len() ==> comp@[i] < cells@.len(),
{
    let ghost target = bfs(cells@, side as int, code, visited@, seq![root], Seq::empty());
    let n = cells.len();
    let mut queue: VecDeque<usize> = VecDeque::new();
    queue.push_back(root);
    let mut comp: Vec<usize> = Vec::new();
    proof {
        assert(queue@ =~= seq![root]);
    }
    while queue.len() > 0
        invariant
            grid_ok(cells@, side as int),
            n == cells@.len(),
            visited@.len() == n,
            forall|i: int| 0 <= i < queue@.len() ==> queue@[i] < n,
            forall|i: int| 0 <= i < comp@.len() ==> comp@[i] < n,
            bfs(cells@, side as int, code, visited@, queue@, comp@) == target,
        decreases measure((visited@, queue@)),
    {
        let ghost v0 = visited@;
        let ghost rest = queue@;
        let p = queue.pop_front().unwrap();
        proof {
            assert(queue@ =~= rest.drop_first());
            assert(p == rest[0]);
            lemma_side_pos(n as int, side as int, p as int);
            lemma_pos_of_index(p as int, side as int);
            lemma_expand_measure(cells@, side as int, code, (v0, rest.drop_first()), p as int);
        }
        comp.push(p);
        let x = p % side;
        let y = p / side;
        let ghost s0 = (v0, queue@);
        let ghost s1 = visit(cells@, side as int, code, s0, x as int, y as int - 1);
        if y >= 1 {
            try_visit(cells, side, code, visited, &mut queue, x, y - 1);
        }
        assert((visited@, queue@) == s1);
        let ghost s2 = visit(cells@, side as int, code, s1, x as int, y as int + 1);
        if y + 1 < side {
            try_visit(cells, side, code, visited, &mut queue, x, y + 1);
        }
        assert((visited@, queue@) == s2);
        let ghost s3 = visit(cells@, side as int, code, s2, x as int - 1, y as int);
        if x >= 1 {
            try_visit(cells, side, code, visited, &mut queue, x - 1, y);
        }
        assert((visited@, queue@) == s3);
        let ghost s4 = visit(cells@, side as int, code, s3, x as int + 1, y as int);
        if x + 1 < side {
            try_visit(cells, side, code, visited, &mut queue, x + 1, y);
        }
        proof {
            assert((visited@, queue@) == s4);
            assert(s4 == expand(cells@, side as int, code, (v0, rest.drop_first()), p as int));
            assert forall|i: int| 0 <= i < queue@.len() implies queue@[i] < n by {
                if i < s0.1.len() {
                    assert(queue@.take(s0.1.len() as int) == s0.1) by {
                        lemma_visit_prefix(cells@, side as int, code, s0, x as int, y as int - 1);
                        lemma_visit_prefix(cells@, side as int, code, s1, x as int, y as int + 1);
                        lemma_visit_prefix(cells@, side as int, code, s2, x as int - 1, y as int);
                        lemma_visit_prefix(cells@, side as int, code, s3, x as int + 1, y as int);
                    }
                    assert(queue@[i] == queue@.take(s0.1.len() as int)[i]);
                    assert(queue@[i] == rest[i + 1]);
                }
            }
        }
    }
    comp
}

/// The components of the cells holding `code` (see `components`).
pub fn find_components(cells: &Vec<u8>, side: usize, code: u8) -> (comps: Vec<Vec<usize>>)
    requires
        grid_ok(cells@, side as int),
    ensures
        comps@.len() == components(cells@, side as int, code).len(),
        forall|i: int| 0 <= i < comps@.len() ==> #[trigger] comps@[i]@ == components(cells@, side as int, code)[i],
        forall|i: int, j: int| 0 <= i < comps@.len() && 0 <= j < comps@[i]@.len() ==> comps@[i]@[j] < cells@.len(),
{
    let n = cells.len();
    let mut visited: Vec<bool> = Vec::new();
    let mut i: usize = 0;
    while i < n
        invariant
            0 <= i <= n,
            visited@ =~= Seq::new(i as nat, |j: int| false),
        decreases n - i,
    {
        visited.push(false);
        i = i + 1;
    }
    let mut comps: Vec<Vec<usize>> = Vec::new();
    let mut k: usize = 0;
    while k < n
        invariant
            grid_ok(cells@, side as int),
            n == cells@.len(),
            0 <= k <= n,
            visited@ == scan_components(cells@, side as int, code, k as nat).0,
            visited@.len() == n,
            comps@.len() == scan_components(cells@, side as int, code, k as nat).1.len(),
            forall|a: int| 0 <= a < comps@.len() ==> #[trigger] comps@[a]@ == scan_components(cells@, side as int, code, k as nat).1[a],
            forall|a: int, b: int| 0 <= a < comps@.len() && 0 <= b < comps@[a]@.len() ==> comps@[a]@[b] < n,
        decreases n - k,
    {
        if !visited[k] && cells[k] == code {
            visited.set(k, true);
            let comp = search_component(cells, side, code, &mut visited, k);
            comps.push(comp);
        }
        k = k + 1;
    }
    comps
}

/// Some cell of the component lies in the outermost ring.
pub fn component_touches_boundary(comp: &Vec<usize>, side: usize) -> (b: bool)
    requires
        side > 0,
        forall|i: int| 0 <= i < comp@.len() ==> comp@[i] < side * side,
    ensures
        b == touches_boundary(comp@, side as int),
{
    let mut i: usize = 0;
    while i < comp.len()
        invariant
            side > 0,
            0 <= i <= comp@.len(),
            forall|j: int| 0 <= j < comp@.len() ==> comp@[j] < side * side,
            forall|j: int| 0 <= j < i ==> !on_boundary(col_of(comp@[j] as int, side as int), row_of(comp@[j] as int, side as int), side as int),
        decreases comp@.len() - i,
    {
        let k = comp[i];
        proof {
            lemma_pos_of_index(k as int, side as int);
        }
        if is_boundary_cell(k % side, k / side, side) {
            return true;
        }
        i = i + 1;
    }
    false
}


/// Cells `a` and `b` share an edge.
pub open spec fn edge_neighbors(a: int, b: int, side: int) -> bool {
    let ax = col_of(a, side);
    let ay = row_of(a, side);
    let bx = col_of(b, side);
    let by = row_of(b, side);
    (ax == bx && (ay - by == 1 || by - ay == 1)) || (ay == by && (ax - bx == 1 || bx - ax == 1))
}

/// Each cell after the first shares an edge with an earlier one, so that all
/// of them are edge-connected.
pub open spec fn chained(s: Seq<usize>, side: int) -> bool {
    forall|i: int| 1 <= i < s.len() ==> #[trigger] joins_earlier(s, i, side)
}

/// Cell `i` of `s` shares an edge with an earlier cell of `s`.
pub open spec fn joins_earlier(s: Seq<usize>, i: int, side: int) -> bool {
    exists|j: int| 0 <= j < i && #[trigger] edge_neighbors(s[j] as int, s[i] as int, side)
}

/// The search so far: `prior` are the cells of the earlier components, `s`
/// the current component followed by the queue; exactly these are reached,
/// each once, all hold `code`, and `s` is edge-connected.
pub open spec fn search_inv(cells: Seq<u8>, side: int, code: u8, v: Seq<bool>, s: Seq<usize>, prior: Set<usize>) -> bool {
    &&& v.len() == cells.len()
    &&& forall|k: int| 0 <= k < v.len() ==> (#[trigger] v[k] <==> (prior.contains(k as usize) || s.contains(k as usize)))
    &&& s.no_duplicates()
    &&& forall|i: int| 0 <= i < s.len() ==> !prior.contains(#[trigger] s[i])
    &&& forall|i: int| 0 <= i < s.len() ==> (#[trigger] s[i]) < cells.len() && cells[s[i] as int] == code
    &&& chained(s, side)
}

proof fn lemma_chained_push(s: Seq<usize>, k: usize, j: int, side: int)
    requires
        chained(s, side),
        0 <= j < s.len(),
        edge_neighbors(s[j] as int, k as int, side),
    ensures
        chained(s.push(k), side),
{
    let s2 = s.push(k);
    assert forall|i: int| 1 <= i < s2.len() implies #[trigger] joins_earlier(s2, i, side) by {
        if i < s.len() {
            assert(joins_earlier(s, i, side));
            let jj = choose|jj: int| 0 <= jj < i && #[trigger] edge_neighbors(s[jj] as int, s[i] as int, side);
            assert(s2[jj] == s[jj] && s2[i] == s[i]);
            assert(edge_neighbors(s2[jj] as int, s2[i] as int, side));
        } else {
            assert(s2[j] == s[j] && s2[i] == k);
            assert(edge_neighbors(s2[j] as int, s2[i] as int, side));
        }
    }
}

/// Reaching cell (x, y), a neighbour of the last expanded cell `c.last()`.
proof fn lemma_visit_inv(cells: Seq<u8>, side: int, code: u8, c: Seq<usize>, st: (Seq<bool>, Seq<usize>), x: int, y: int, prior: Set<usize>)
    requires
        grid_ok(cells, side),
        cells.len() <= usize::MAX,
        c.len() > 0,
        search_inv(cells, side, code, st.0, c + st.1, prior),
        in_grid(x, y, side) ==> edge_neighbors(c.last() as int, pos(x, y, side), side),
    ensures
        search_inv(cells, side, code, visit(cells, side, code, st, x, y).0, c + visit(cells, side, code, st, x, y).1, prior),
        forall|k: int| 0 <= k < st.0.len() && #[trigger] st.0[k] ==> visit(cells, side, code, st, x, y).0[k],
{
    let k = pos(x, y, side);
    if in_grid(x, y, side) && 0 <= k < st.0.len() && k < cells.len() && !st.0[k] && cells[k] == code {
        let s = c + st.1;
        let v2 = st.0.update(k, true);
        let s2 = c + st.1.push(k as usize);
        assert((k as usize) as int == k);
        assert(visit(cells, side, code, st, x, y) == (v2, st.1.push(k as usize)));
        assert(s2 =~= s.push(k as usize));
        assert(!s.contains(k as usize));
        assert(!prior.contains(k as usize));
        assert forall|j: int| 0 <= j < v2.len() implies (#[trigger] v2[j] <==> (prior.contains(j as usize) || s2.contains(j as usize))) by {
            if j == k {
                assert(s2[s.len() as int] == k as usize);
            } else {
                assert(v2[j] == st.0[j]);
                if s2.contains(j as usize) {
                    let i = choose|i: int| 0 <= i < s2.len() && s2[i] == j as usize;
                    if i < s.len() {
                        assert(s[i] == s2[i]);
                    }
                }
                if s.contains(j as usize) {
                    let i = choose|i: int| 0 <= i < s.len() && s[i] == j as usize;
                    assert(s2[i] == s[i]);
                }
            }
        }
        assert forall|a: int, b: int| 0 <= a < s2.len() && 0 <= b < s2.len() && a != b implies s2[a] != s2[b] by {
            if a < s.len() && b < s.len() {
                assert(s2[a] == s[a] && s2[b] == s[b]);
            } else if a < s.len() {
                assert(s2[a] == s[a]);
                assert(s.contains(s[a]));
            } else if b < s.len() {
                assert(s2[b] == s[b]);
                assert(s.contains(s[b]));
            }
        }
        assert forall|i: int| 0 <= i < s2.len() implies !prior.contains(#[trigger] s2[i]) by {
            if i < s.len() {
                assert(s2[i] == s[i]);
            }
        }
        assert forall|i: int| 0 <= i < s2.len() implies (#[trigger] s2[i]) < cells.len() && cells[s2[i] as int] == code by {
            if i < s.len() {
                assert(s2[i] == s[i]);
            }
        }
        assert(s[c.len() - 1] == c.last());
        lemma_chained_push(s, k as usize, c.len() - 1, side);
        assert(chained(s2, side));
        assert(search_inv(cells, side, code, v2, s2, prior));
    }
}

/// Expanding cell `p`, just moved to the end of the component.
proof fn lemma_expand_inv(cells: Seq<u8>, side: int, code: u8, c: Seq<usize>, st: (Seq<bool>, Seq<usize>), prior: Set<usize>)
    requires
        grid_ok(cells, side),
        cells.len() <= usize::MAX,
        c.len() > 0,
        c.last() < cells.len(),
        search_inv(cells, side, code, st.0, c + st.1, prior),
    ensures
        search_inv(cells, side, code, expand(cells, side, code, st, c.last() as int).0, c + expand(cells, side, code, st, c.last() as int).1, prior),
        forall|k: int| 0 <= k < st.0.len() && #[trigger] st.0[k] ==> expand(cells, side, code, st, c.last() as int).0[k],
{
    let p = c.last() as int;
    crate::passes::lemma_side_pos(cells.len() as int, side, p);
    lemma_pos_of_index(p, side);
    let x = col_of(p, side);
    let y = row_of(p, side);
    if in_grid(x, y - 1, side) {
        lemma_index_of_pos(x, y - 1, side);
    }
    if in_grid(x, y + 1, side) {
        lemma_index_of_pos(x, y + 1, side);
    }
    if in_grid(x - 1, y, side) {
        lemma_index_of_pos(x - 1, y, side);
    }
    if in_grid(x + 1, y, side) {
        lemma_index_of_pos(x + 1, y, side);
    }
    let s1 = visit(cells, side, code, st, x, y - 1);
    let s2 = visit(cells, side, code, s1, x, y + 1);
    let s3 = visit(cells, side, code, s2, x - 1, y);
    lemma_visit_inv(cells, side, code, c, st, x, y - 1, prior);
    lemma_visit_inv(cells, side, code, c, s1, x, y + 1, prior);
    lemma_visit_inv(cells, side, code, c, s2, x - 1, y, prior);
    lemma_visit_inv(cells, side, code, c, s3, x + 1, y, prior);
}

/// A whole search keeps the invariant; it only adds reached cells.
proof fn lemma_bfs_inv(cells: Seq<u8>, side: int, code: u8, v: Seq<bool>, queue: Seq<usize>, comp: Seq<usize>, prior: Set<usize>)
    requires
        grid_ok(cells, side),
        cells.len() <= usize::MAX,
        search_inv(cells, side, code, v, comp + queue, prior),
        comp.len() + queue.len() > 0,
    ensures
        search_inv(cells, side, code, bfs(cells, side, code, v, queue, comp).0, bfs(cells, side, code, v, queue, comp).1, prior),
        bfs(cells, side, code, v, queue, comp).1.len() > 0,
        forall|k: int| 0 <= k < v.len() && #[trigger] v[k] ==> bfs(cells, side, code, v, queue, comp).0[k],
    decreases measure((v, queue)),
{
    if queue.len() == 0 {
        assert(comp + queue =~= comp);
    } else {
        let p = queue[0];
        let c2 = comp.push(p);
        let q2 = queue.drop_first();
        assert(c2 + q2 =~= comp + queue);
        assert((comp + queue)[comp.len() as int] == p);
        let st = expand(cells, side, code, (v, q2), p as int);
        lemma_expand_measure(cells, side, code, (v, q2), p as int);
        lemma_expand_inv(cells, side, code, c2, (v, q2), prior);
        lemma_bfs_inv(cells, side, code, st.0, st.1, c2, prior);
    }
}

/// Cell `k` lies in one of the components.
pub open spec fn in_some_component(comps: Seq<Seq<usize>>, k: int) -> bool {
    exists|i: int| 0 <= i < comps.len() && #[trigger] comps[i].contains(k as usize)
}

pub open spec fn component_cells(comps: Seq<Seq<usize>>) -> Set<usize> {
    Set::new(|k: usize| in_some_component(comps, k as int))
}

/// The invariant of the scan over the first `n` positions.
pub open spec fn scan_inv(cells: Seq<u8>, side: int, code: u8, n: nat) -> bool {
    let r = scan_components(cells, side, code, n);
    &&& r.0.len() == cells.len()
    &&& forall|k: int| 0 <= k < cells.len() ==> (#[trigger] r.0[k] <==> in_some_component(r.1, k))
    &&& forall|i: int| 0 <= i < r.1.len() ==> (#[trigger] r.1[i]).len() > 0 && r.1[i].no_duplicates() && chained(r.1[i], side)
    &&& forall|i: int, a: int| 0 <= i < r.1.len() && 0 <= a < r.1[i].len() ==> (#[trigger] r.1[i][a]) < cells.len() && cells[r.1[i][a] as int] == code
    &&& forall|i: int, j: int, b: int| 0 <= i < j < r.1.len() && 0 <= b < r.1[j].len() ==> !(#[trigger] r.1[i].contains(#[trigger] r.1[j][b]))
    &&& forall|k: int| 0 <= k < n && k < cells.len() && cells[k] == code ==> #[trigger] r.0[k]
}

proof fn lemma_scan_inv(cells: Seq<u8>, side: int, code: u8, n: nat)
    requires
        grid_ok(cells, side),
        cells.len() <= usize::MAX,
        n <= cells.len(),
    ensures
        scan_inv(cells, side, code, n),
    decreases n,
{
    if n == 0 {
        let r = scan_components(cells, side, code, 0);
        assert forall|k: int| 0 <= k < cells.len() implies (#[trigger] r.0[k] <==> in_some_component(r.1, k)) by {}
    } else {
        lemma_scan_inv(cells, side, code, (n - 1) as nat);
        let prev = scan_components(cells, side, code, (n - 1) as nat);
        let r = n - 1;
        if r < cells.len() && r < prev.0.len() && !prev.0[r] && cells[r] == code {
            let prior = component_cells(prev.1);
            let v1 = prev.0.update(r, true);
            let start = seq![r as usize];
            assert(Seq::<usize>::empty() + start =~= start);
            assert(!prior.contains(r as usize)) by {
                assert(!in_some_component(prev.1, r));
            }
            assert forall|k: int| 0 <= k < v1.len() implies (#[trigger] v1[k] <==> (prior.contains(k as usize) || start.contains(k as usize))) by {
                if k != r {
                    assert(v1[k] == prev.0[k]);
                    if start.contains(k as usize) {
                        assert(start[0] == k as usize);
                    }
                    assert(prior.contains(k as usize) <==> in_some_component(prev.1, k));
                } else {
                    assert(start[0] == r as usize);
                }
            }
            assert(search_inv(cells, side, code, v1, Seq::<usize>::empty() + start, prior));
            lemma_bfs_inv(cells, side, code, v1, start, Seq::empty(), prior);
            let res = bfs(cells, side, code, v1, start, Seq::empty());
            let cur = scan_components(cells, side, code, n);
            assert(cur == (res.0, prev.1.push(res.1)));
            let comps = cur.1;
            assert forall|k: int| 0 <= k < cells.len() implies (#[trigger] cur.0[k] <==> in_some_component(comps, k)) by {
                if in_some_component(comps, k) {
                    let i = choose|i: int| 0 <= i < comps.len() && #[trigger] comps[i].contains(k as usize);
                    if i < prev.1.len() {
                        assert(comps[i] == prev.1[i]);
                        assert(in_some_component(prev.1, k));
                        assert(prior.contains(k as usize));
                    }
                }
                if cur.0[k] {
                    if prior.contains(k as usize) {
                        let i = choose|i: int| 0 <= i < prev.1.len() && #[trigger] prev.1[i].contains(k as usize);
                        assert(comps[i] == prev.1[i]);
                    } else {
                        assert(comps[prev.1.len() as int] == res.1);
                    }
                }
            }
            assert forall|i: int| 0 <= i < comps.len() implies (#[trigger] comps[i]).len() > 0 && comps[i].no_duplicates() && chained(comps[i], side) by {
                if i < prev.1.len() {
                    assert(comps[i] == prev.1[i]);
                }
            }
            assert forall|i: int, a: int| 0 <= i < comps.len() && 0 <= a < comps[i].len() implies (#[trigger] comps[i][a]) < cells.len() && cells[comps[i][a] as int] == code by {
                if i < prev.1.len() {
                    assert(comps[i] == prev.1[i]);
                }
            }
            assert forall|i: int, j: int, b: int| 0 <= i < j < comps.len() && 0 <= b < comps[j].len() implies !(#[trigger] comps[i].contains(#[trigger] comps[j][b])) by {
                assert(comps[i] == prev.1[i]);
                if j < prev.1.len() {
                    assert(comps[j] == prev.1[j]);
                } else {
                    assert(comps[j] == res.1);
                    if comps[i].contains(comps[j][b]) {
                        assert(prev.1[i].contains((comps[j][b] as int) as usize));
                        assert(in_some_component(prev.1, comps[j][b] as int));
                        assert(prior.contains(res.1[b]));
                    }
                }
            }
            assert forall|k: int| 0 <= k < n && k < cells.len() && cells[k] == code implies #[trigger] cur.0[k] by {
                if k < r {
                    assert(prev.0[k]);
                } else {
                    assert(v1[k]);
                }
            }
        } else {
            let cur = scan_components(cells, side, code, n);
            assert(cur == prev);
            assert forall|k: int| 0 <= k < n && k < cells.len() && cells[k] == code implies #[trigger] cur.0[k] by {
                if k < r {
                    assert(prev.0[k]);
                }
            }
        }
    }
}

/// Law: the components of the cells holding `code` are edge-connected (each
/// cell after the first shares an edge with an earlier one), hold only such
/// cells, each once over all components, and every cell holding `code` lies
/// in one of them.
pub proof fn lemma_components_partition(cells: Seq<u8>, side: int, code: u8)
    requires
        grid_ok(cells, side),
        cells.len() <= usize::MAX,
    ensures
        ({
            let comps = components(cells, side, code);
            &&& forall|i: int| 0 <= i < comps.len() ==> (#[trigger] comps[i]).len() > 0 && comps[i].no_duplicates() && chained(comps[i], side)
            &&& forall|i: int, a: int| 0 <= i < comps.len() && 0 <= a < comps[i].len() ==> (#[trigger] comps[i][a]) < cells.len() && cells[comps[i][a] as int] == code
            &&& forall|i: int, j: int, b: int| 0 <= i < comps.len() && 0 <= j < comps.len() && i != j && 0 <= b < comps[j].len() ==> !(#[trigger] comps[i].contains(#[trigger] comps[j][b]))
            &&& forall|k: int| 0 <= k < cells.len() && cells[k] == code ==> #[trigger] in_some_component(comps, k)
        }),
{
    lemma_scan_inv(cells, side, code, cells.len());
    let r = scan_components(cells, side, code, cells.len());
    let comps = r.1;
    assert forall|i: int, j: int, b: int| 0 <= i < comps.len() && 0 <= j < comps.len() && i != j && 0 <= b < comps[j].len() implies !(#[trigger] comps[i].contains(#[trigger] comps[j][b])) by {
        if j < i {
            if comps[i].contains(comps[j][b]) {
                let a = choose|a: int| 0 <= a < comps[i].len() && comps[i][a] == comps[j][b];
                assert(comps[j].contains(comps[i][a]));
            }
        }
    }
    assert forall|k: int| 0 <= k < cells.len() && cells[k] == code implies #[trigger] in_some_component(comps, k) by {
        assert(r.0[k]);
    }
}

} // verus!
