//! Streaming construction of the coarse levels. Playable tiles arrive row by
//! row; each level keeps the child rows of the parent row it is building and
//! emits that parent row, left to right, once a child row of the next parent
//! row arrives (or the stream ends). Emitted parents feed the next level.
use vstd::prelude::*;
use crate::pyramid::{child_view, downsample_parent_tile, downsampled};
use crate::sorted::{increasing_i32, insert_sorted_i32, lemma_increasing_unique_i32};
use crate::row_order::{lemma_finish_in_row_order, lemma_push_in_row_order, rows_in_order};

verus! {

/// Floor of `x / 2`.
pub open spec fn half_floor(x: i32) -> i32 {
    ((x as int) / 2) as i32
}

/// Row `y` is the upper child row of its parent row.
pub open spec fn upper_row(y: i32) -> bool {
    (y as int) % 2 == 0
}

/// The tile stored last under `x` among the first `n` entries of a row.
pub open spec fn row_get_upto(r: Seq<(i32, Seq<u8>)>, x: i32, n: nat) -> Option<Seq<u8>>
    decreases n,
{
    if n == 0 {
        None
    } else if r[n - 1].0 == x {
        Some(r[n - 1].1)
    } else {
        row_get_upto(r, x, (n - 1) as nat)
    }
}

/// The tile stored last under `x` in a row.
pub open spec fn row_get(r: Seq<(i32, Seq<u8>)>, x: i32) -> Option<Seq<u8>> {
    row_get_upto(r, x, r.len())
}

/// Some tile of the two rows sits under the parent column `p`.
pub open spec fn parent_column(even: Seq<(i32, Seq<u8>)>, odd: Seq<(i32, Seq<u8>)>, p: i32) -> bool {
    (exists|i: int| 0 <= i < even.len() && half_floor(#[trigger] even[i].0) == p) || (exists|i: int|
        0 <= i < odd.len() && half_floor(#[trigger] odd[i].0) == p)
}

/// The parent columns of two child rows, ascending.
pub open spec fn parent_columns(even: Seq<(i32, Seq<u8>)>, odd: Seq<(i32, Seq<u8>)>) -> Seq<i32> {
    choose|xs: Seq<i32>| increasing_i32(xs) && forall|p: i32| #[trigger] xs.contains(p) <==> parent_column(even, odd, p)
}

pub open spec fn children_of(even: Seq<(i32, Seq<u8>)>, odd: Seq<(i32, Seq<u8>)>, p: i32) -> Seq<Option<Seq<u8>>> {
    seq![
        row_get(even, (2 * p) as i32),
        row_get(even, (2 * p + 1) as i32),
        row_get(odd, (2 * p) as i32),
        row_get(odd, (2 * p + 1) as i32),
    ]
}

/// The parent row `py` built from its upper (`even`) and lower (`odd`) child
/// rows: one parent tile per parent column, left to right; nothing when both
/// rows are empty.
pub open spec fn emit_row(even: Seq<(i32, Seq<u8>)>, odd: Seq<(i32, Seq<u8>)>, py: i32, side: int, zoom: u8) -> Seq<(i32, i32, Seq<u8>)> {
    if even.len() == 0 && odd.len() == 0 {
        Seq::empty()
    } else {
        let xs = parent_columns(even, odd);
        Seq::new(xs.len(), |i: int| (xs[i], py, downsampled(children_of(even, odd, xs[i]), side, zoom)))
    }
}

/// State of one level: the child row being received (its y and tiles), the
/// parent row being built, and its upper and lower child rows.
pub struct LevelState {
    pub current_y: Option<i32>,
    pub current: Seq<(i32, Seq<u8>)>,
    pub active: Option<i32>,
    pub even: Seq<(i32, Seq<u8>)>,
    pub odd: Seq<(i32, Seq<u8>)>,
}

/// Closes the child row being received: it becomes the upper or lower child
/// row of its parent row; a different parent row being built is emitted first.
pub open spec fn level_flush(s: LevelState, side: int, zoom: u8) -> (LevelState, Seq<(i32, i32, Seq<u8>)>) {
    match s.current_y {
        None => (s, Seq::empty()),
        Some(row_y) => {
            let py = half_floor(row_y);
            let switch = s.active is Some && s.active != Some(py);
            let produced = if switch {
                emit_row(s.even, s.odd, s.active->Some_0, side, zoom)
            } else {
                Seq::empty()
            };
            let even1 = if switch { Seq::empty() } else { s.even };
            let odd1 = if switch { Seq::empty() } else { s.odd };
            let even2 = if upper_row(row_y) { s.current } else { even1 };
            let odd2 = if upper_row(row_y) { odd1 } else { s.current };
            (LevelState { current_y: None, current: Seq::empty(), active: Some(py), even: even2, odd: odd2 }, produced)
        },
    }
}

/// Receives child tile (x, y); `None` when y is above the row being received.
pub open spec fn level_ingest(s: LevelState, x: i32, y: i32, cells: Seq<u8>, side: int, zoom: u8) -> Option<(LevelState, Seq<(i32, i32, Seq<u8>)>)> {
    match s.current_y {
        Some(cy) => if y < cy {
            None
        } else {
            let f = if y != cy { level_flush(s, side, zoom) } else { (s, Seq::empty()) };
            Some((LevelState { current_y: Some(y), current: f.0.current.push((x, cells)), ..f.0 }, f.1))
        },
        None => Some((LevelState { current_y: Some(y), current: s.current.push((x, cells)), ..s }, Seq::empty())),
    }
}

/// Ends the stream of a level: closes the row being received and emits the
/// parent row being built.
pub open spec fn level_finish(s: LevelState, side: int, zoom: u8) -> (LevelState, Seq<(i32, i32, Seq<u8>)>) {
    let f = level_flush(s, side, zoom);
    let rest = match f.0.active {
        Some(py) => emit_row(f.0.even, f.0.odd, py, side, zoom),
        None => Seq::empty(),
    };
    (LevelState { active: None, even: Seq::empty(), odd: Seq::empty(), ..f.0 }, f.1 + rest)
}

/// One level of the pyramid under construction.
pub struct ParentLevelReducer {
    parent_zoom: u8,
    cells_per_side: usize,
    current_child_row_y: Option<i32>,
    current_row_tiles: Vec<(i32, Vec<u8>)>,
    active_parent_y: Option<i32>,
    even_row_tiles: Vec<(i32, Vec<u8>)>,
    odd_row_tiles: Vec<(i32, Vec<u8>)>,
}

pub open spec fn row_view(r: Seq<(i32, Vec<u8>)>) -> Seq<(i32, Seq<u8>)> {
    r.map_values(|e: (i32, Vec<u8>)| (e.0, e.1@))
}

pub open spec fn tiles_view(t: Seq<(i32, i32, Vec<u8>)>) -> Seq<(i32, i32, Seq<u8>)> {
    t.map_values(|e: (i32, i32, Vec<u8>)| (e.0, e.1, e.2@))
}

pub open spec fn row_tiles_fit(r: Seq<(i32, Vec<u8>)>, side: int) -> bool {
    forall|i: int| 0 <= i < r.len() ==> (#[trigger] r[i]).1@.len() >= side * side
}

impl ParentLevelReducer {
    pub closed spec fn zoom(&self) -> u8 {
        self.parent_zoom
    }

    pub closed spec fn side(&self) -> int {
        self.cells_per_side as int
    }

    pub closed spec fn state(&self) -> LevelState {
        LevelState {
            current_y: self.current_child_row_y,
            current: row_view(self.current_row_tiles@),
            active: self.active_parent_y,
            even: row_view(self.even_row_tiles@),
            odd: row_view(self.odd_row_tiles@),
        }
    }

    pub closed spec fn wf(&self) -> bool {
        &&& self.cells_per_side % 2 == 0
        &&& self.cells_per_side * self.cells_per_side <= usize::MAX
        &&& row_tiles_fit(self.current_row_tiles@, self.cells_per_side as int)
        &&& row_tiles_fit(self.even_row_tiles@, self.cells_per_side as int)
        &&& row_tiles_fit(self.odd_row_tiles@, self.cells_per_side as int)
    }

    /// An empty level producing parents at `parent_zoom`.
    pub fn new(parent_zoom: u8, cells_per_side: usize) -> (r: Self)
        requires
            cells_per_side % 2 == 0,
            cells_per_side * cells_per_side <= usize::MAX,
        ensures
            r.wf(),
            r.zoom() == parent_zoom,
            r.side() == cells_per_side,
            r.state() == (LevelState { current_y: None, current: Seq::empty(), active: None, even: Seq::empty(), odd: Seq::empty() }),
    {
        let r = ParentLevelReducer {
            parent_zoom,
            cells_per_side,
            current_child_row_y: None,
            current_row_tiles: Vec::new(),
            active_parent_y: None,
            even_row_tiles: Vec::new(),
            odd_row_tiles: Vec::new(),
        };
        assert(r.state().current =~= Seq::<(i32, Seq<u8>)>::empty());
        assert(r.state().even =~= Seq::<(i32, Seq<u8>)>::empty());
        assert(r.state().odd =~= Seq::<(i32, Seq<u8>)>::empty());
        r
    }

    pub fn parent_zoom(&self) -> (z: u8)
        ensures
            z == self.zoom(),
    {
        self.parent_zoom
    }

    /// Receives one child tile; refuses a tile above the row being received.
    pub fn ingest_child_tile(&mut self, child_tile_x: i32, child_tile_y: i32, child_cells: Vec<u8>) -> (r: Result<Vec<(i32, i32, Vec<u8>)>, PyramidError>)
        requires
            old(self).wf(),
            child_cells@.len() >= old(self).side() * old(self).side(),
        ensures
            final(self).wf(),
            final(self).zoom() == old(self).zoom(),
            final(self).side() == old(self).side(),
            match (r, level_ingest(old(self).state(), child_tile_x, child_tile_y, child_cells@, old(self).side(), old(self).zoom())) {
                (Ok(t), Some((s, p))) => final(self).state() == s && tiles_view(t@) == p && tiles_fit(t@, old(self).side()),
                (Err(e), None) => e == PyramidError::RowsOutOfOrder && final(self).state() == old(self).state(),
                _ => false,
            },
    {
        let mut produced_tiles: Vec<(i32, i32, Vec<u8>)> = Vec::new();
        if let Some(current_row_y) = self.current_child_row_y {
            if child_tile_y < current_row_y {
                return Err(PyramidError::RowsOutOfOrder);
            }
            if child_tile_y != current_row_y {
                produced_tiles = self.flush_child_row();
            }
        }
        proof {
            assert(tiles_view(Seq::<(i32, i32, Vec<u8>)>::empty()) =~= Seq::empty());
        }
        let ghost before = self.current_row_tiles@;
        self.current_child_row_y = Some(child_tile_y);
        self.current_row_tiles.push((child_tile_x, child_cells));
        proof {
            assert(row_view(self.current_row_tiles@) =~= row_view(before).push((child_tile_x, child_cells@)));
        }
        Ok(produced_tiles)
    }

    /// Ends the stream of this level.
    pub fn finish(&mut self) -> (t: Vec<(i32, i32, Vec<u8>)>)
        requires
            old(self).wf(),
        ensures
            final(self).wf(),
            final(self).zoom() == old(self).zoom(),
            final(self).side() == old(self).side(),
            (final(self).state(), tiles_view(t@)) == level_finish(old(self).state(), old(self).side(), old(self).zoom()),
            tiles_fit(t@, old(self).side()),
    {
        let mut produced_tiles = self.flush_child_row();
        if let Some(parent_y) = self.active_parent_y {
            let more = self.emit_parent_row(parent_y);
            let ghost p0 = produced_tiles@;
            append_tiles(&mut produced_tiles, more);
        }
        self.active_parent_y = None;
        self.even_row_tiles = Vec::new();
        self.odd_row_tiles = Vec::new();
        proof {
            assert(row_view(self.even_row_tiles@) =~= Seq::empty());
            assert(row_view(self.odd_row_tiles@) =~= Seq::empty());
            assert(tiles_view(Seq::<(i32, i32, Vec<u8>)>::empty()) =~= Seq::empty());
        }
        produced_tiles
    }

    /// Closes the child row being received (see `level_flush`).
    fn flush_child_row(&mut self) -> (t: Vec<(i32, i32, Vec<u8>)>)
        requires
            old(self).wf(),
        ensures
            final(self).wf(),
            final(self).zoom() == old(self).zoom(),
            final(self).side() == old(self).side(),
            (final(self).state(), tiles_view(t@)) == level_flush(old(self).state(), old(self).side(), old(self).zoom()),
            tiles_fit(t@, old(self).side()),
    {
        let row_y = match self.current_child_row_y {
            None => {
                assert(tiles_view(Seq::<(i32, i32, Vec<u8>)>::empty()) =~= Seq::empty());
                return Vec::new();
            },
            Some(y) => y,
        };
        self.current_child_row_y = None;
        let mut row_tiles: Vec<(i32, Vec<u8>)> = Vec::new();
        std::mem::swap(&mut row_tiles, &mut self.current_row_tiles);
        let row_parent_y = half_floor_exec(row_y);
        let mut produced_tiles: Vec<(i32, i32, Vec<u8>)> = Vec::new();
        proof {
            assert(tiles_view(produced_tiles@) =~= Seq::empty());
        }
        let switch = match self.active_parent_y {
            Some(a) => a != row_parent_y,
            None => false,
        };
        if switch {
            let previous_parent_y = match self.active_parent_y {
                Some(a) => a,
                None => row_parent_y,
            };
            produced_tiles = self.emit_parent_row(previous_parent_y);
            self.even_row_tiles = Vec::new();
            self.odd_row_tiles = Vec::new();
        }
        self.active_parent_y = Some(row_parent_y);
        if is_upper_row(row_y) {
            self.even_row_tiles = row_tiles;
        } else {
            self.odd_row_tiles = row_tiles;
        }
        proof {
            assert(row_view(self.current_row_tiles@) =~= Seq::empty());
            assert(row_view(Seq::<(i32, Vec<u8>)>::empty()) =~= Seq::empty());
        }
        produced_tiles
    }

    /// The parent row `parent_y` (see `emit_row`).
    fn emit_parent_row(&self, parent_y: i32) -> (t: Vec<(i32, i32, Vec<u8>)>)
        requires
            self.wf(),
        ensures
            tiles_view(t@) == emit_row(self.state().even, self.state().odd, parent_y, self.side(), self.zoom()),
            tiles_fit(t@, self.side()),
    {
        let ghost even = row_view(self.even_row_tiles@);
        let ghost odd = row_view(self.odd_row_tiles@);
        if self.even_row_tiles.len() == 0 && self.odd_row_tiles.len() == 0 {
            assert(tiles_view(Seq::<(i32, i32, Vec<u8>)>::empty()) =~= Seq::empty());
            return Vec::new();
        }
        let xs = parent_columns_exec(&self.even_row_tiles, &self.odd_row_tiles);
        proof {
            lemma_parent_columns_unique(xs@, even, odd);
        }
        let mut produced_tiles: Vec<(i32, i32, Vec<u8>)> = Vec::new();
        let mut i: usize = 0;
        while i < xs.len()
            invariant
                self.wf(),
                0 <= i <= xs@.len(),
                xs@ == parent_columns(even, odd),
                even == row_view(self.even_row_tiles@),
                odd == row_view(self.odd_row_tiles@),
                forall|j: int| 0 <= j < xs@.len() ==> -0x4000_0000 <= #[trigger] xs@[j] < 0x4000_0000,
                tiles_view(produced_tiles@) =~= Seq::new(i as nat, |j: int| (xs@[j], parent_y, downsampled(children_of(even, odd, xs@[j]), self.side(), self.zoom()))),
                tiles_fit(produced_tiles@, self.side()),
            decreases xs@.len() - i,
        {
            let parent_x = xs[i];
            let c0 = row_lookup(&self.even_row_tiles, parent_x * 2);
            let c1 = row_lookup(&self.even_row_tiles, parent_x * 2 + 1);
            let c2 = row_lookup(&self.odd_row_tiles, parent_x * 2);
            let c3 = row_lookup(&self.odd_row_tiles, parent_x * 2 + 1);
            let children = [c0, c1, c2, c3];
            proof {
                assert(children@.map_values(|c: Option<&Vec<u8>>| child_view(c)) =~= children_of(even, odd, parent_x));
            }
            let parent_cells = downsample_parent_tile(children, self.cells_per_side, self.parent_zoom);
            let ghost before = produced_tiles@;
            produced_tiles.push((parent_x, parent_y, parent_cells));
            proof {
                assert(tiles_view(produced_tiles@) =~= tiles_view(before).push((parent_x, parent_y, parent_cells@)));
            }
            i = i + 1;
        }
        produced_tiles
    }
}

pub open spec fn tiles_fit(t: Seq<(i32, i32, Vec<u8>)>, side: int) -> bool {
    forall|i: int| 0 <= i < t.len() ==> (#[trigger] t[i]).2@.len() == side * side
}

/// Why the pyramid refused its input.
#[derive(Debug, Clone, Copy, PartialEq, Eq, Structural)]
pub enum PyramidError {
    /// Tiles of a row arrived after tiles of a lower row.
    RowsOutOfOrder,
    /// The raster width must be even to halve it.
    OddCellsPerSide,
}

fn half_floor_exec(x: i32) -> (h: i32)
    ensures
        h == half_floor(x),
        -0x4000_0000 <= h < 0x4000_0000,
{
    let shifted: u64 = (x as i64 + 0x8000_0000) as u64;
    let h = (shifted / 2) as i64 - 0x4000_0000;
    assert((shifted as int) / 2 - 0x4000_0000 == (x as int) / 2) by (nonlinear_arith)
        requires
            shifted as int == x as int + 0x8000_0000,
    ;
    h as i32
}

fn is_upper_row(y: i32) -> (b: bool)
    ensures
        b == upper_row(y),
{
    let shifted: u64 = (y as i64 + 0x8000_0000) as u64;
    assert((shifted as int) % 2 == (y as int) % 2) by (nonlinear_arith)
        requires
            shifted as int == y as int + 0x8000_0000,
    ;
    shifted % 2 == 0
}

/// The tile stored last under `x` in a row.
fn row_lookup(row: &Vec<(i32, Vec<u8>)>, x: i32) -> (r: Option<&Vec<u8>>)
    ensures
        child_view(r) == row_get(row_view(row@), x),
        r matches Some(v) ==> exists|i: int| 0 <= i < row@.len() && row@[i].1 == *v,
{
    let mut i = row.len();
    while i > 0
        invariant
            0 <= i <= row@.len(),
            row_get(row_view(row@), x) == row_get_upto(row_view(row@), x, i as nat),
        decreases i,
    {
        let j = i - 1;
        if row[j].0 == x {
            return Some(&row[j].1);
        }
        i = j;
    }
    None
}

/// The parent columns of two child rows, ascending.
fn parent_columns_exec(even: &Vec<(i32, Vec<u8>)>, odd: &Vec<(i32, Vec<u8>)>) -> (xs: Vec<i32>)
    ensures
        increasing_i32(xs@),
        forall|p: i32| #[trigger] xs@.contains(p) <==> parent_column(row_view(even@), row_view(odd@), p),
        forall|j: int| 0 <= j < xs@.len() ==> -0x4000_0000 <= #[trigger] xs@[j] < 0x4000_0000,
{
    let mut xs: Vec<i32> = Vec::new();
    let mut i: usize = 0;
    while i < even.len()
        invariant
            0 <= i <= even@.len(),
            increasing_i32(xs@),
            forall|p: i32| #[trigger] xs@.contains(p) <==> exists|k: int| 0 <= k < i && half_floor(#[trigger] row_view(even@)[k].0) == p,
            forall|j: int| 0 <= j < xs@.len() ==> -0x4000_0000 <= #[trigger] xs@[j] < 0x4000_0000,
        decreases even@.len() - i,
    {
        let h = half_floor_exec(even[i].0);
        let ghost before = xs@;
        insert_sorted_i32(&mut xs, h);
        proof {
            assert forall|p: i32| #[trigger] xs@.contains(p) <==> exists|k: int| 0 <= k < i + 1 && half_floor(#[trigger] row_view(even@)[k].0) == p by {
                if p == h {
                    assert(half_floor(row_view(even@)[i as int].0) == p);
                }
                if exists|k: int| 0 <= k < i + 1 && half_floor(#[trigger] row_view(even@)[k].0) == p {
                    let k = choose|k: int| 0 <= k < i + 1 && half_floor(#[trigger] row_view(even@)[k].0) == p;
                    if k < i {
                        assert(before.contains(p));
                    }
                }
            }
            assert forall|j: int| 0 <= j < xs@.len() implies -0x4000_0000 <= #[trigger] xs@[j] < 0x4000_0000 by {
                assert(xs@.contains(xs@[j]));
                if xs@[j] != h {
                    let k = choose|k: int| 0 <= k < before.len() && before[k] == xs@[j];
                    assert(-0x4000_0000 <= before[k] < 0x4000_0000);
                }
            }
        }
        i = i + 1;
    }
    let ghost from_even = xs@;
    let mut i: usize = 0;
    while i < odd.len()
        invariant
            0 <= i <= odd@.len(),
            increasing_i32(xs@),
            forall|p: i32| #[trigger] xs@.contains(p) <==> (from_even.contains(p) || exists|k: int| 0 <= k < i && half_floor(#[trigger] row_view(odd@)[k].0) == p),
            forall|p: i32| #[trigger] from_even.contains(p) <==> exists|k: int| 0 <= k < even@.len() && half_floor(#[trigger] row_view(even@)[k].0) == p,
            forall|j: int| 0 <= j < xs@.len() ==> -0x4000_0000 <= #[trigger] xs@[j] < 0x4000_0000,
        decreases odd@.len() - i,
    {
        let h = half_floor_exec(odd[i].0);
        let ghost before = xs@;
        insert_sorted_i32(&mut xs, h);
        proof {
            assert forall|p: i32| #[trigger] xs@.contains(p) <==> (from_even.contains(p) || exists|k: int| 0 <= k < i + 1 && half_floor(#[trigger] row_view(odd@)[k].0) == p) by {
                if p == h {
                    assert(half_floor(row_view(odd@)[i as int].0) == p);
                }
                if exists|k: int| 0 <= k < i + 1 && half_floor(#[trigger] row_view(odd@)[k].0) == p {
                    let k = choose|k: int| 0 <= k < i + 1 && half_floor(#[trigger] row_view(odd@)[k].0) == p;
                    if k < i {
                        assert(before.contains(p));
                    }
                }
            }
            assert forall|j: int| 0 <= j < xs@.len() implies -0x4000_0000 <= #[trigger] xs@[j] < 0x4000_0000 by {
                assert(xs@.contains(xs@[j]));
                if xs@[j] != h {
                    let k = choose|k: int| 0 <= k < before.len() && before[k] == xs@[j];
                    assert(-0x4000_0000 <= before[k] < 0x4000_0000);
                }
            }
        }
        i = i + 1;
    }
    proof {
        assert forall|p: i32| #[trigger] xs@.contains(p) <==> parent_column(row_view(even@), row_view(odd@), p) by {
            if exists|k: int| 0 <= k < even@.len() && half_floor(#[trigger] row_view(even@)[k].0) == p {
                let k = choose|k: int| 0 <= k < even@.len() && half_floor(#[trigger] row_view(even@)[k].0) == p;
                assert(0 <= k < row_view(even@).len() && half_floor(row_view(even@)[k].0) == p);
            }
            if exists|k: int| 0 <= k < odd@.len() && half_floor(#[trigger] row_view(odd@)[k].0) == p {
                let k = choose|k: int| 0 <= k < odd@.len() && half_floor(#[trigger] row_view(odd@)[k].0) == p;
                assert(0 <= k < row_view(odd@).len() && half_floor(row_view(odd@)[k].0) == p);
            }
        }
    }
    xs
}

proof fn lemma_parent_columns_unique(xs: Seq<i32>, even: Seq<(i32, Seq<u8>)>, odd: Seq<(i32, Seq<u8>)>)
    requires
        increasing_i32(xs),
        forall|p: i32| #[trigger] xs.contains(p) <==> parent_column(even, odd, p),
    ensures
        xs == parent_columns(even, odd),
{
    let c = parent_columns(even, odd);
    assert(increasing_i32(c) && forall|p: i32| #[trigger] c.contains(p) <==> parent_column(even, odd, p));
    lemma_increasing_unique_i32(xs, c);
}

/// Appends `more` to `t`.
fn append_tiles(t: &mut Vec<(i32, i32, Vec<u8>)>, more: Vec<(i32, i32, Vec<u8>)>)
    ensures
        tiles_view(final(t)@) == tiles_view(old(t)@) + tiles_view(more@),
        forall|side: int| tiles_fit(old(t)@, side) && tiles_fit(more@, side) ==> tiles_fit(final(t)@, side),
{
    let mut more = more;
    let ghost m = more@;
    let ghost t0 = t@;
    t.append(&mut more);
    assert(t@ == t0 + m);
    assert(tiles_view(t@) =~= tiles_view(t0) + tiles_view(m));
}


/// A parent tile emitted by the pyramid: its zoom, column, row and cells.
#[derive(Debug)]
pub struct ParentTile {
    pub zoom: u8,
    pub x: i32,
    pub y: i32,
    pub cells: Vec<u8>,
}

/// Every emitted raster has `side * side` cells.
pub open spec fn emitted_fit(t: Seq<ParentTile>, side: int) -> bool {
    forall|i: int| 0 <= i < t.len() ==> (#[trigger] t[i]).cells@.len() == side * side
}

pub open spec fn emitted_view(t: Seq<ParentTile>) -> Seq<(u8, i32, i32, Seq<u8>)> {
    t.map_values(|e: ParentTile| (e.zoom, e.x, e.y, e.cells@))
}

pub open spec fn tag_tiles(zoom: u8, t: Seq<(i32, i32, Seq<u8>)>) -> Seq<(u8, i32, i32, Seq<u8>)> {
    t.map_values(|e: (i32, i32, Seq<u8>)| (zoom, e.0, e.1, e.2))
}

/// Feeds child tiles into one level, in order; `None` if the level refuses one.
pub open spec fn feed_level(st: LevelState, items: Seq<(i32, i32, Seq<u8>)>, side: int, zoom: u8) -> Option<(LevelState, Seq<(i32, i32, Seq<u8>)>)>
    decreases items.len(),
{
    if items.len() == 0 {
        Some((st, Seq::empty()))
    } else {
        match feed_level(st, items.drop_last(), side, zoom) {
            None => None,
            Some(r1) => {
                let it = items.last();
                match level_ingest(r1.0, it.0, it.1, it.2, side, zoom) {
                    None => None,
                    Some(r2) => Some((r2.0, r1.1 + r2.1)),
                }
            },
        }
    }
}

/// Feeds tiles into level `l`, then everything it emits into level `l + 1`,
/// and so on; returns the new level states and every emitted parent, level
/// by level.
pub open spec fn cascade(states: Seq<LevelState>, zooms: Seq<u8>, side: int, l: nat, items: Seq<(i32, i32, Seq<u8>)>) -> Option<(Seq<LevelState>, Seq<(u8, i32, i32, Seq<u8>)>)>
    decreases states.len() - l,
{
    if l >= states.len() {
        Some((states, Seq::empty()))
    } else {
        match feed_level(states[l as int], items, side, zooms[l as int]) {
            None => None,
            Some(r1) => match cascade(states.update(l as int, r1.0), zooms, side, l + 1, r1.1) {
                None => None,
                Some(r2) => Some((r2.0, tag_tiles(zooms[l as int], r1.1) + r2.1)),
            },
        }
    }
}

/// Emits each of `prod` (made by level `l`) and cascades it through the
/// levels above before the next one.
pub open spec fn spread(states: Seq<LevelState>, zooms: Seq<u8>, side: int, l: nat, prod: Seq<(i32, i32, Seq<u8>)>) -> Option<(Seq<LevelState>, Seq<(u8, i32, i32, Seq<u8>)>)>
    decreases prod.len(),
{
    if prod.len() == 0 {
        Some((states, Seq::empty()))
    } else {
        match spread(states, zooms, side, l, prod.drop_last()) {
            None => None,
            Some(r1) => {
                let t = prod.last();
                match cascade(r1.0, zooms, side, l + 1, seq![t]) {
                    None => None,
                    Some(r2) => Some((r2.0, r1.1 + seq![(zooms[l as int], t.0, t.1, t.2)] + r2.1)),
                }
            },
        }
    }
}

/// Finishes levels `l` to `n - 1` in order, spreading what each emits.
pub open spec fn finish_levels(states: Seq<LevelState>, zooms: Seq<u8>, side: int, l: nat, n: nat) -> Option<(Seq<LevelState>, Seq<(u8, i32, i32, Seq<u8>)>)>
    decreases n - l,
{
    if l >= n || l >= states.len() {
        Some((states, Seq::empty()))
    } else {
        let f = level_finish(states[l as int], side, zooms[l as int]);
        match spread(states.update(l as int, f.0), zooms, side, l, f.1) {
            None => None,
            Some(r1) => match finish_levels(r1.0, zooms, side, l + 1, n) {
                None => None,
                Some(r2) => Some((r2.0, r1.1 + r2.1)),
            },
        }
    }
}

pub open spec fn extend_emits(prefix: Seq<(u8, i32, i32, Seq<u8>)>, r: Option<(Seq<LevelState>, Seq<(u8, i32, i32, Seq<u8>)>)>) -> Option<(Seq<LevelState>, Seq<(u8, i32, i32, Seq<u8>)>)> {
    match r {
        Some(x) => Some((x.0, prefix + x.1)),
        None => None,
    }
}

/// Builds the coarse levels of the pyramid from a stream of playable tiles.
pub struct PyramidStreamReducer {
    levels: Vec<ParentLevelReducer>,
    cells_per_side: usize,
}

impl PyramidStreamReducer {
    pub closed spec fn states(&self) -> Seq<LevelState> {
        self.levels@.map_values(|l: ParentLevelReducer| l.state())
    }

    pub closed spec fn zooms(&self) -> Seq<u8> {
        self.levels@.map_values(|l: ParentLevelReducer| l.zoom())
    }

    pub closed spec fn side(&self) -> int {
        self.cells_per_side as int
    }

    pub closed spec fn wf(&self) -> bool {
        &&& forall|i: int| 0 <= i < self.levels@.len() ==> (#[trigger] self.levels@[i]).wf() && self.levels@[i].side() == self.cells_per_side
        &&& self.cells_per_side * self.cells_per_side <= usize::MAX
    }

    /// A pyramid whose playable tiles sit at zoom `playable_zoom_level`: one
    /// level per coarser zoom, the level for zoom `playable_zoom_level - 1`
    /// first. Refused when `cells_per_side` is odd.
    pub fn new(playable_zoom_level: u8, cells_per_side: usize) -> (r: Result<Self, PyramidError>)
        requires
            cells_per_side * cells_per_side <= usize::MAX,
        ensures
            cells_per_side % 2 != 0 <==> r is Err,
            r matches Err(e) ==> e == PyramidError::OddCellsPerSide,
            r matches Ok(p) ==> {
                &&& p.wf()
                &&& p.side() == cells_per_side
                &&& p.zooms() =~= Seq::new(playable_zoom_level as nat, |i: int| (playable_zoom_level - 1 - i) as u8)
                &&& p.states() =~= Seq::new(playable_zoom_level as nat, |i: int| LevelState { current_y: None, current: Seq::empty(), active: None, even: Seq::empty(), odd: Seq::empty() })
                &&& rows_in_order(p.states())
            },
    {
        if cells_per_side % 2 != 0 {
            return Err(PyramidError::OddCellsPerSide);
        }
        let mut levels: Vec<ParentLevelReducer> = Vec::new();
        let mut parent_zoom: u8 = playable_zoom_level;
        while parent_zoom > 0
            invariant
                parent_zoom <= playable_zoom_level,
                cells_per_side % 2 == 0,
                cells_per_side * cells_per_side <= usize::MAX,
                levels@.len() == playable_zoom_level - parent_zoom,
                forall|i: int| 0 <= i < levels@.len() ==> {
                    &&& (#[trigger] levels@[i]).wf()
                    &&& levels@[i].side() == cells_per_side
                    &&& levels@[i].zoom() == playable_zoom_level - 1 - i
                    &&& levels@[i].state() == LevelState { current_y: None, current: Seq::empty(), active: None, even: Seq::empty(), odd: Seq::empty() }
                },
            decreases parent_zoom,
        {
            parent_zoom = parent_zoom - 1;
            levels.push(ParentLevelReducer::new(parent_zoom, cells_per_side));
        }
        let p = PyramidStreamReducer { levels, cells_per_side };
        assert(p.states() =~= Seq::new(playable_zoom_level as nat, |i: int| LevelState { current_y: None, current: Seq::empty(), active: None, even: Seq::empty(), odd: Seq::empty() }));
        Ok(p)
    }

    /// Receives one playable tile and returns every parent tile it completes,
    /// level by level; refused when its row is above the row being received.
    pub fn push_playable_tile(&mut self, playable_tile_x: i32, playable_tile_y: i32, playable_cells: Vec<u8>) -> (r: Result<Vec<ParentTile>, PyramidError>)
        requires
            old(self).wf(),
            playable_cells@.len() >= old(self).side() * old(self).side(),
        ensures
            final(self).wf(),
            final(self).side() == old(self).side(),
            final(self).zooms() == old(self).zooms(),
            match (r, cascade(old(self).states(), old(self).zooms(), old(self).side(), 0, seq![(playable_tile_x, playable_tile_y, playable_cells@)])) {
                (Ok(t), Some(c)) => final(self).states() == c.0 && emitted_view(t@) == c.1 && emitted_fit(t@, old(self).side()),
                (Err(e), None) => e == PyramidError::RowsOutOfOrder,
                _ => false,
            },
            rows_in_order(old(self).states()) && (old(self).states().len() > 0 ==> (old(self).states()[0].current_y matches Some(c) ==> c <= playable_tile_y)) ==> r is Ok && rows_in_order(final(self).states()),
    {
        proof {
            if rows_in_order(self.states()) && (self.states().len() > 0 ==> (self.states()[0].current_y matches Some(c) ==> c <= playable_tile_y)) {
                lemma_push_in_row_order(self.states(), self.zooms(), self.side(), playable_tile_x, playable_tile_y, playable_cells@);
            }
        }
        let mut items: Vec<(i32, i32, Vec<u8>)> = Vec::new();
        items.push((playable_tile_x, playable_tile_y, playable_cells));
        proof {
            assert(tiles_view(items@) =~= seq![(playable_tile_x, playable_tile_y, playable_cells@)]);
        }
        self.propagate_from_level(0, items)
    }

    /// Ends the stream: finishes every level in order; each parent a level
    /// emits is followed by its cascade through the levels above.
    pub fn finish(&mut self) -> (r: Result<Vec<ParentTile>, PyramidError>)
        requires
            old(self).wf(),
        ensures
            final(self).wf(),
            final(self).side() == old(self).side(),
            final(self).zooms() == old(self).zooms(),
            match (r, finish_levels(old(self).states(), old(self).zooms(), old(self).side(), 0, old(self).states().len())) {
                (Ok(t), Some(c)) => final(self).states() == c.0 && emitted_view(t@) == c.1 && emitted_fit(t@, old(self).side()),
                (Err(e), None) => e == PyramidError::RowsOutOfOrder,
                _ => false,
            },
            rows_in_order(old(self).states()) ==> r is Ok,
    {
        proof {
            if rows_in_order(self.states()) {
                lemma_finish_in_row_order(self.states(), self.zooms(), self.side());
            }
        }
        let ghost s0 = self.states();
        let ghost z = self.zooms();
        let ghost side = self.side();
        let ghost n = s0.len();
        let mut emitted: Vec<ParentTile> = Vec::new();
        let mut level_idx: usize = 0;
        proof {
            assert(emitted_view(emitted@) =~= Seq::empty());
            assert(emitted_view(emitted@) + Seq::<(u8, i32, i32, Seq<u8>)>::empty() =~= emitted_view(emitted@));
        }
        let total = self.levels.len();
        while level_idx < total
            invariant
                self.wf(),
                self.side() == side,
                self.zooms() == z,
                self.levels@.len() == n,
                total == n,
                n == old(self).states().len(),
                side == old(self).side(),
                z == old(self).zooms(),
                s0 == old(self).states(),
                self.states().len() == n,
                0 <= level_idx <= n,
                finish_levels(s0, z, side, 0, n) == extend_emits(emitted_view(emitted@), finish_levels(self.states(), z, side, level_idx as nat, n)),
                emitted_fit(emitted@, side),
                rows_in_order(s0) ==> finish_levels(s0, z, side, 0, n) is Some,
            decreases n - level_idx,
        {
            let ghost sl = self.states();
            let ghost e0 = emitted_view(emitted@);
            let spread_result = self.spread_level(level_idx);
            proof {
                lemma_finish_unfold(sl, z, side, level_idx as nat, n);
            }
            match spread_result {
                Err(e) => {
                    return Err(e);
                },
                Ok(more) => {
                    let ghost mv = emitted_view(more@);
                    append_emits(&mut emitted, more);
                    proof {
                        let fr = finish_levels(self.states(), z, side, (level_idx + 1) as nat, n);
                        if let Some(x) = fr {
                            assert(e0 + (mv + x.1) =~= emitted_view(emitted@) + x.1);
                        }
                    }
                },
            }
            level_idx = level_idx + 1;
        }
        proof {
            assert(emitted_view(emitted@) + Seq::<(u8, i32, i32, Seq<u8>)>::empty() =~= emitted_view(emitted@));
        }
        Ok(emitted)
    }

    /// Finishes level `l` and spreads what it emits (see `spread`).
    #[verifier::loop_isolation(false)]
    fn spread_level(&mut self, l: usize) -> (r: Result<Vec<ParentTile>, PyramidError>)
        requires
            old(self).wf(),
            l < old(self).levels@.len(),
        ensures
            final(self).wf(),
            final(self).side() == old(self).side(),
            final(self).zooms() == old(self).zooms(),
            final(self).levels@.len() == old(self).levels@.len(),
            ({
                let f = level_finish(old(self).states()[l as int], old(self).side(), old(self).zooms()[l as int]);
                match (r, spread(old(self).states().update(l as int, f.0), old(self).zooms(), old(self).side(), l as nat, f.1)) {
                    (Ok(t), Some(c)) => final(self).states() == c.0 && emitted_view(t@) == c.1 && emitted_fit(t@, old(self).side()),
                    (Err(e), None) => e == PyramidError::RowsOutOfOrder,
                    _ => false,
                }
            }),
    {
        let ghost z = self.zooms();
        let ghost side = self.side();
        let count = self.levels.len();
        let ghost n = self.levels@.len();
        let zoom = self.levels[l].parent_zoom();
        let mut produced = self.finish_one_level(l);
        let ghost s1 = self.states();
        let ghost prodv = tiles_view(produced@);
        let mut emitted: Vec<ParentTile> = Vec::new();
        let ghost mut j: int = 0;
        proof {
            assert(prodv.take(0) =~= Seq::<(i32, i32, Seq<u8>)>::empty());
            assert(emitted_view(emitted@) =~= Seq::empty());
            assert(produced@.skip(0) =~= produced@);
        }
        while produced.len() > 0
            invariant
                self.wf(),
                self.side() == side,
                self.zooms() == z,
                self.levels@.len() == n,
                l < n,
                n == count,
                n == old(self).levels@.len(),
                side == old(self).side(),
                z == old(self).zooms(),
                zoom == z[l as int],
                0 <= j <= prodv.len(),
                produced@.len() == prodv.len() - j,
                tiles_view(produced@) == prodv.skip(j),
                tiles_fit(produced@, side),
                spread(s1, z, side, l as nat, prodv.take(j)) == Some((self.states(), emitted_view(emitted@))),
                emitted_fit(emitted@, side),
            decreases produced@.len(),
        {
            let (px, py, pcells) = produced.remove(0);
            let ghost t = prodv[j];
            let ghost em_before = emitted_view(emitted@);
            proof {
                assert(prodv.skip(j)[0] == t);
                assert(prodv.take(j + 1).drop_last() =~= prodv.take(j));
                assert(prodv.take(j + 1).last() == t);
                assert(prodv.skip(j).drop_first() =~= prodv.skip(j + 1));
                assert(tiles_view(produced@) =~= prodv.skip(j + 1));
            }
            let copy = copy_cells(&pcells);
            let ghost before_push = emitted@;
            emitted.push(ParentTile { zoom, x: px, y: py, cells: copy });
            proof {
                assert(emitted_view(emitted@) =~= em_before.push((z[l as int], t.0, t.1, t.2)));
            }
            let mut next: Vec<(i32, i32, Vec<u8>)> = Vec::new();
            next.push((px, py, pcells));
            proof {
                assert(tiles_view(next@) =~= seq![t]);
            }
            let more = self.propagate_from_level(l + 1, next);
            match more {
                Err(e) => {
                    proof {
                        lemma_spread_none(s1, z, side, l as nat, prodv, (j + 1) as nat);
                    }
                    return Err(e);
                },
                Ok(more) => {
                    let ghost mv = emitted_view(more@);
                    let ghost pre = emitted_view(emitted@);
                    append_emits(&mut emitted, more);
                    proof {
                        assert(emitted_view(emitted@) =~= em_before + seq![(z[l as int], t.0, t.1, t.2)] + mv);
                    }
                },
            }
            proof {
                j = j + 1;
            }
        }
        proof {
            assert(prodv.take(j) =~= prodv);
        }
        Ok(emitted)
    }

    /// Finishes level `l` (see `level_finish`).
    fn finish_one_level(&mut self, l: usize) -> (t: Vec<(i32, i32, Vec<u8>)>)
        requires
            old(self).wf(),
            l < old(self).levels@.len(),
        ensures
            final(self).wf(),
            final(self).side() == old(self).side(),
            final(self).zooms() == old(self).zooms(),
            final(self).levels@.len() == old(self).levels@.len(),
            final(self).states() == old(self).states().update(l as int, level_finish(old(self).states()[l as int], old(self).side(), old(self).zooms()[l as int]).0),
            tiles_view(t@) == level_finish(old(self).states()[l as int], old(self).side(), old(self).zooms()[l as int]).1,
            tiles_fit(t@, old(self).side()),
    {
        let ghost before = self.levels@;
        let mut level = self.levels.remove(l);
        let produced = level.finish();
        self.levels.insert(l, level);
        proof {
            assert(self.levels@ =~= before.update(l as int, level));
            assert(self.states() =~= before.map_values(|v: ParentLevelReducer| v.state()).update(l as int, level.state()));
            assert(self.zooms() =~= before.map_values(|v: ParentLevelReducer| v.zoom()));
            assert forall|i: int| 0 <= i < self.levels@.len() implies (#[trigger] self.levels@[i]).wf() && self.levels@[i].side() == self.cells_per_side by {
                if i != l {
                    assert(self.levels@[i] == before[i]);
                }
            }
        }
        produced
    }

    /// Feeds `items` into level `l` (see `feed_level`).
    #[verifier::loop_isolation(false)]
    fn feed_into_level(&mut self, l: usize, items: Vec<(i32, i32, Vec<u8>)>) -> (r: Result<Vec<(i32, i32, Vec<u8>)>, PyramidError>)
        requires
            old(self).wf(),
            l < old(self).levels@.len(),
            tiles_fit_at_least(items@, old(self).side()),
        ensures
            final(self).wf(),
            final(self).side() == old(self).side(),
            final(self).zooms() == old(self).zooms(),
            final(self).levels@.len() == old(self).levels@.len(),
            match (r, feed_level(old(self).states()[l as int], tiles_view(items@), old(self).side(), old(self).zooms()[l as int])) {
                (Ok(p), Some(f)) => final(self).states() == old(self).states().update(l as int, f.0) && tiles_view(p@) == f.1 && tiles_fit(p@, old(self).side()),
                (Err(e), None) => e == PyramidError::RowsOutOfOrder,
                _ => false,
            },
    {
        let ghost before = self.levels@;
        let ghost side = self.side();
        let ghost orig = tiles_view(items@);
        let mut level = self.levels.remove(l);
        let ghost st0 = level.state();
        proof {
            assert(level == before[l as int]);
        }
        let mut items = items;
        let mut produced: Vec<(i32, i32, Vec<u8>)> = Vec::new();
        let ghost mut j: int = 0;
        proof {
            assert(orig.take(0) =~= Seq::<(i32, i32, Seq<u8>)>::empty());
            assert(tiles_view(produced@) =~= Seq::empty());
            assert(items@.skip(0) =~= items@);
        }
        while items.len() > 0
            invariant
                level.wf(),
                level.side() == side,
                level.zoom() == before[l as int].zoom(),
                before[l as int].state() == st0,
                0 <= j <= orig.len(),
                items@.len() == orig.len() - j,
                l < before.len(),
                before == old(self).levels@,
                side == old(self).side(),
                self.levels@ == before.remove(l as int),
                self.cells_per_side as int == side,
                self.cells_per_side * self.cells_per_side <= usize::MAX,
                forall|i: int| 0 <= i < before.len() ==> (#[trigger] before[i]).wf() && before[i].side() == side,
                tiles_view(items@) == orig.skip(j),
                tiles_fit_at_least(items@, side),
                tiles_fit(produced@, side),
                feed_level(st0, orig.take(j), side, level.zoom()) == Some((level.state(), tiles_view(produced@))),
            decreases items@.len(),
        {
            let (x, y, cells) = items.remove(0);
            proof {
                assert(orig.skip(j)[0] == (x, y, cells@));
                assert(orig.take(j + 1).drop_last() =~= orig.take(j));
                assert(orig.take(j + 1).last() == (x, y, cells@));
                assert(orig.skip(j).drop_first() =~= orig.skip(j + 1));
                assert(tiles_view(items@) =~= orig.skip(j + 1));
            }
            match level.ingest_child_tile(x, y, cells) {
                Err(e) => {
                    proof {
                        assert(feed_level(st0, orig.take(j + 1), side, level.zoom()) is None);
                        lemma_feed_none(st0, orig, j + 1, side, level.zoom());
                        assert(st0 == old(self).states()[l as int]);
                        assert(level.zoom() == old(self).zooms()[l as int]);
                        assert(side == old(self).side());
                    }
                    self.levels.insert(l, level);
                    proof {
                        assert(self.levels@ =~= before.update(l as int, level));
                        assert forall|i: int| 0 <= i < self.levels@.len() implies (#[trigger] self.levels@[i]).wf() && self.levels@[i].side() == self.cells_per_side by {
                            if i != l {
                                assert(self.levels@[i] == before[i]);
                            }
                        }
                        assert(self.zooms() =~= before.map_values(|v: ParentLevelReducer| v.zoom()));
                    }
                    return Err(e);
                },
                Ok(p) => {
                    let ghost p0 = tiles_view(produced@);
                    append_tiles(&mut produced, p);
                },
            }
            proof {
                j = j + 1;
            }
        }
        proof {
            assert(orig.take(j) =~= orig);
        }
        self.levels.insert(l, level);
        proof {
            assert(self.levels@ =~= before.update(l as int, level));
            assert(self.states() =~= before.map_values(|v: ParentLevelReducer| v.state()).update(l as int, level.state()));
            assert(self.zooms() =~= before.map_values(|v: ParentLevelReducer| v.zoom()));
            assert forall|i: int| 0 <= i < self.levels@.len() implies (#[trigger] self.levels@[i]).wf() && self.levels@[i].side() == self.cells_per_side by {
                if i != l {
                    assert(self.levels@[i] == before[i]);
                }
            }
        }
        Ok(produced)
    }

    /// Cascades `items` from level `start` (see `cascade`).
    fn propagate_from_level(&mut self, start: usize, items: Vec<(i32, i32, Vec<u8>)>) -> (r: Result<Vec<ParentTile>, PyramidError>)
        requires
            old(self).wf(),
            tiles_fit_at_least(items@, old(self).side()),
        ensures
            final(self).wf(),
            final(self).side() == old(self).side(),
            final(self).zooms() == old(self).zooms(),
            final(self).levels@.len() == old(self).levels@.len(),
            match (r, cascade(old(self).states(), old(self).zooms(), old(self).side(), start as nat, tiles_view(items@))) {
                (Ok(t), Some(c)) => final(self).states() == c.0 && emitted_view(t@) == c.1 && emitted_fit(t@, old(self).side()),
                (Err(e), None) => e == PyramidError::RowsOutOfOrder,
                _ => false,
            },
        decreases old(self).levels@.len() - start,
    {
        if start >= self.levels.len() {
            let t: Vec<ParentTile> = Vec::new();
            assert(emitted_view(t@) =~= Seq::empty());
            return Ok(t);
        }
        let ghost s0 = self.states();
        let ghost z = self.zooms();
        let ghost side = self.side();
        let zoom = self.levels[start].parent_zoom();
        let produced = self.feed_into_level(start, items);
        let produced = match produced {
            Err(e) => {
                return Err(e);
            },
            Ok(p) => p,
        };
        let mut emitted: Vec<ParentTile> = Vec::new();
        let mut k: usize = 0;
        while k < produced.len()
            invariant
                0 <= k <= produced@.len(),
                emitted_view(emitted@) =~= tag_tiles(zoom, tiles_view(produced@.take(k as int))),
                tiles_fit(produced@, side),
                emitted_fit(emitted@, side),
            decreases produced@.len() - k,
        {
            let copy = copy_cells(&produced[k].2);
            let ghost before = emitted@;
            emitted.push(ParentTile { zoom, x: produced[k].0, y: produced[k].1, cells: copy });
            proof {
                assert(produced@.take(k + 1) =~= produced@.take(k as int).push(produced@[k as int]));
                assert(tiles_view(produced@.take(k + 1)) =~= tiles_view(produced@.take(k as int)).push((produced@[k as int].0, produced@[k as int].1, produced@[k as int].2@)));
                assert(emitted_view(emitted@) =~= emitted_view(before).push((zoom, produced@[k as int].0, produced@[k as int].1, produced@[k as int].2@)));
            }
            k = k + 1;
        }
        proof {
            assert(produced@.take(produced@.len() as int) =~= produced@);
        }
        let ghost pv = tiles_view(produced@);
        let rest = self.propagate_from_level(start + 1, produced);
        match rest {
            Err(e) => Err(e),
            Ok(rest) => {
                append_emits(&mut emitted, rest);
                Ok(emitted)
            },
        }
    }
}

/// Copies a raster.
fn copy_cells(v: &Vec<u8>) -> (r: Vec<u8>)
    ensures
        r@ == v@,
{
    let mut r: Vec<u8> = Vec::new();
    let mut i: usize = 0;
    while i < v.len()
        invariant
            0 <= i <= v@.len(),
            r@ == v@.take(i as int),
        decreases v@.len() - i,
    {
        r.push(v[i]);
        proof {
            assert(v@.take(i + 1) =~= v@.take(i as int).push(v@[i as int]));
        }
        i = i + 1;
    }
    assert(v@.take(v@.len() as int) =~= v@);
    r
}

/// Appends `more` to `t`.
fn append_emits(t: &mut Vec<ParentTile>, more: Vec<ParentTile>)
    ensures
        emitted_view(final(t)@) == emitted_view(old(t)@) + emitted_view(more@),
        forall|side: int| emitted_fit(old(t)@, side) && emitted_fit(more@, side) ==> emitted_fit(final(t)@, side),
{
    let mut more = more;
    let ghost m = more@;
    let ghost t0 = t@;
    t.append(&mut more);
    assert(t@ == t0 + m);
    assert(emitted_view(t@) =~= emitted_view(t0) + emitted_view(m));
    assert forall|side: int| emitted_fit(t0, side) && emitted_fit(m, side) implies emitted_fit(t@, side) by {
        assert forall|i: int| 0 <= i < t@.len() implies (#[trigger] t@[i]).cells@.len() == side * side by {
            if i < t0.len() {
                assert(t@[i] == t0[i]);
            } else {
                assert(t@[i] == m[i - t0.len()]);
            }
        }
    }
}

proof fn lemma_feed_none(st: LevelState, items: Seq<(i32, i32, Seq<u8>)>, j: int, side: int, zoom: u8)
    requires
        0 <= j <= items.len(),
        feed_level(st, items.take(j), side, zoom) is None,
    ensures
        feed_level(st, items, side, zoom) is None,
    decreases items.len(),
{
    if j == items.len() {
        assert(items.take(j) =~= items);
    } else {
        assert(items.drop_last().take(j) =~= items.take(j));
        lemma_feed_none(st, items.drop_last(), j, side, zoom);
    }
}

proof fn lemma_spread_none(states: Seq<LevelState>, zooms: Seq<u8>, side: int, l: nat, prod: Seq<(i32, i32, Seq<u8>)>, j: nat)
    requires
        j <= prod.len(),
        spread(states, zooms, side, l, prod.take(j as int)) is None,
    ensures
        spread(states, zooms, side, l, prod) is None,
    decreases prod.len(),
{
    if j == prod.len() {
        assert(prod.take(j as int) =~= prod);
    } else {
        assert(prod.drop_last().take(j as int) =~= prod.take(j as int));
        lemma_spread_none(states, zooms, side, l, prod.drop_last(), j);
    }
}

proof fn lemma_finish_unfold(states: Seq<LevelState>, zooms: Seq<u8>, side: int, l: nat, n: nat)
    requires
        l < n,
        l < states.len(),
    ensures
        finish_levels(states, zooms, side, l, n) == ({
            let f = level_finish(states[l as int], side, zooms[l as int]);
            match spread(states.update(l as int, f.0), zooms, side, l, f.1) {
                None => None,
                Some(r1) => match finish_levels(r1.0, zooms, side, l + 1, n) {
                    None => None,
                    Some(r2) => Some((r2.0, r1.1 + r2.1)),
                },
            }
        }),
{
}

pub open spec fn tiles_fit_at_least(t: Seq<(i32, i32, Vec<u8>)>, side: int) -> bool {
    forall|i: int| 0 <= i < t.len() ==> (#[trigger] t[i]).2@.len() >= side * side
}

} // verus!
