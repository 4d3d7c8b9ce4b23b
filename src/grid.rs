use vstd::prelude::*;
use vstd::arithmetic::div_mod::lemma_fundamental_div_mod_converse;
use vstd::arithmetic::mul::lemma_mul_inequality;

use rayon::iter::{IntoParallelIterator, ParallelIterator};

use crate::cell::Cell;
use crate::race::RaceType;

verus! {

/// A `width` by `height` board of cells stored row-major: the cell at
/// `(x, y)` sits at index `y * width + x`.
pub struct Grid {
    pub width: usize,
    pub height: usize,
    pub cells: Vec<Cell>,
}

/// Row-major position of `(x, y)` on a board `w` cells wide.
pub open spec fn index_of(w: int, x: int, y: int) -> int {
    y * w + x
}

/// Position `(x, y)` and index `y * w + x` determine each other.
pub proof fn lemma_index_coords(w: int, h: int, x: int, y: int)
    requires
        0 <= x < w,
        0 <= y < h,
    ensures
        0 <= index_of(w, x, y) < w * h,
        index_of(w, x, y) % w == x,
        index_of(w, x, y) / w == y,
{
    lemma_fundamental_div_mod_converse(index_of(w, x, y), w, y, x);
    lemma_mul_inequality(y + 1, h, w);
    assert((y + 1) * w == y * w + w) by (nonlinear_arith);
    assert(0 <= y * w) by (nonlinear_arith)
        requires
            0 <= y,
            0 <= w,
    ;
    assert(h * w == w * h) by (nonlinear_arith);
}

/// An index below `w * h` has a column below `w`, a row below `h`, and is
/// recovered from them.
pub proof fn lemma_coords_index(w: int, h: int, i: int)
    requires
        0 < w,
        0 < h,
        0 <= i < w * h,
    ensures
        0 <= i % w < w,
        0 <= i / w < h,
        index_of(w, i % w, i / w) == i,
{
    assert(i == w * (i / w) + i % w) by (nonlinear_arith)
        requires
            0 < w,
    {
        vstd::arithmetic::div_mod::lemma_fundamental_div_mod(i, w);
    }
    assert(0 <= i % w < w) by {
        vstd::arithmetic::div_mod::lemma_mod_bound(i, w);
    }
    assert(0 <= i / w) by {
        vstd::arithmetic::div_mod::lemma_div_pos_is_pos(i, w);
    }
    assert(i / w < h) by (nonlinear_arith)
        requires
            0 < w,
            i == w * (i / w) + i % w,
            0 <= i % w,
            i < w * h,
    ;
    assert(index_of(w, i % w, i / w) == i) by (nonlinear_arith)
        requires
            i == w * (i / w) + i % w,
    ;
}

/// The eight relative positions of the Moore neighborhood, in the fixed order
/// in which neighbors are listed.
pub open spec fn offset(k: int) -> (int, int) {
    if k == 0 {
        (-1, 1)
    } else if k == 1 {
        (0, 1)
    } else if k == 2 {
        (1, 1)
    } else if k == 3 {
        (-1, 0)
    } else if k == 4 {
        (1, 0)
    } else if k == 5 {
        (-1, -1)
    } else if k == 6 {
        (0, -1)
    } else {
        (1, -1)
    }
}

fn exec_offset(k: usize) -> (r: (i8, i8))
    requires
        k < 8,
    ensures
        (r.0 as int, r.1 as int) == offset(k as int),
{
    if k == 0 {
        (-1, 1)
    } else if k == 1 {
        (0, 1)
    } else if k == 2 {
        (1, 1)
    } else if k == 3 {
        (-1, 0)
    } else if k == 4 {
        (1, 0)
    } else if k == 5 {
        (-1, -1)
    } else if k == 6 {
        (0, -1)
    } else {
        (1, -1)
    }
}

/// The rule applied to one cell, from its current state and the number of
/// live neighbors and of live "superior" neighbors around it.
pub open spec fn transition(cell: Cell, alive_neighbors: nat, superior_neighbors: nat) -> (bool, Option<RaceType>) {
    if cell.alive && (alive_neighbors == 2 || alive_neighbors == 3) {
        (true, cell.race_type)
    } else if !cell.alive && alive_neighbors == 3 {
        if superior_neighbors >= 2 {
            (true, Some(RaceType::Superior))
        } else {
            (true, Some(RaceType::Indoctrination))
        }
    } else {
        (false, None)
    }
}

/// How many cells of `s` are alive.
pub open spec fn live_total(s: Seq<Cell>) -> nat
    decreases s.len(),
{
    if s.len() == 0 {
        0
    } else {
        live_total(s.drop_last()) + if s.last().alive { 1nat } else { 0nat }
    }
}

/// How many cells of `s` are alive and of faction `race`.
pub open spec fn live_of(s: Seq<Cell>, race: RaceType) -> nat
    decreases s.len(),
{
    if s.len() == 0 {
        0
    } else {
        live_of(s.drop_last(), race) + if s.last().alive && s.last().race_type == Some(race) {
            1nat
        } else {
            0nat
        }
    }
}

proof fn lemma_live_of_le_total(s: Seq<Cell>, race: RaceType)
    ensures
        live_of(s, race) <= live_total(s),
        live_total(s) <= s.len(),
    decreases s.len(),
{
    if s.len() > 0 {
        lemma_live_of_le_total(s.drop_last(), race);
    }
}

/// The board that seeding with reset yields on a `w` by `h` grid: exactly the
/// positions of `coords` are alive, with faction `race`; all others are dead.
pub open spec fn seeded_board(w: usize, h: usize, coords: Seq<(usize, usize)>, race: Option<RaceType>) -> Seq<Cell> {
    Seq::new(
        (w * h) as nat,
        |i: int|
            if exists|j: int|
                0 <= j < coords.len() && (#[trigger] coords[j]).0 as int == i % (w as int) && coords[j].1 as int
                    == i / (w as int) {
                Cell { alive: true, race_type: race }
            } else {
                Cell { alive: false, race_type: None }
            },
    )
}

impl Grid {
    /// The board's dimensions are positive, their product fits a `usize`,
    /// and there is one cell per position.
    pub open spec fn wf(&self) -> bool {
        &&& self.width > 0
        &&& self.height > 0
        &&& self.width * self.height <= usize::MAX
        &&& self.cells@.len() == self.width * self.height
    }

    pub open spec fn in_bounds(&self, x: int, y: int) -> bool {
        0 <= x < self.width && 0 <= y < self.height
    }

    pub open spec fn x_of(&self, i: int) -> int {
        i % (self.width as int)
    }

    pub open spec fn y_of(&self, i: int) -> int {
        i / (self.width as int)
    }

    /// The cell at position `(x, y)`.
    pub open spec fn cell_at(&self, x: int, y: int) -> Cell {
        self.cells@[index_of(self.width as int, x, y)]
    }


    /// The position at offset `k` from the cell at index `i`, whether or not
    /// it lies on the board.
    pub open spec fn neighbor(&self, i: int, k: int) -> (int, int) {
        (self.x_of(i) + offset(k).0, self.y_of(i) + offset(k).1)
    }

    /// The in-bounds positions among the first `k` offsets around index `i`.
    pub open spec fn neighbors_upto(&self, i: int, k: int) -> Seq<(int, int)>
        decreases k,
    {
        if k <= 0 {
            Seq::empty()
        } else {
            let p = self.neighbors_upto(i, k - 1);
            let n = self.neighbor(i, k - 1);
            if self.in_bounds(n.0, n.1) {
                p.push(n)
            } else {
                p
            }
        }
    }

    /// The Moore neighborhood of index `i`, clipped at the board's edges.
    pub open spec fn neighbors(&self, i: int) -> Seq<(int, int)> {
        self.neighbors_upto(i, 8)
    }

    /// How many of the positions in `s` hold a live cell.
    pub open spec fn count_alive(&self, s: Seq<(int, int)>) -> nat
        decreases s.len(),
    {
        if s.len() == 0 {
            0
        } else {
            let c = self.cell_at(s.last().0, s.last().1);
            self.count_alive(s.drop_last()) + if c.alive { 1nat } else { 0nat }
        }
    }

    /// How many of the positions in `s` hold a live cell of faction `race`.
    pub open spec fn count_alive_of(&self, s: Seq<(int, int)>, race: RaceType) -> nat
        decreases s.len(),
    {
        if s.len() == 0 {
            0
        } else {
            let c = self.cell_at(s.last().0, s.last().1);
            self.count_alive_of(s.drop_last(), race) + if c.alive && c.race_type == Some(race) {
                1nat
            } else {
                0nat
            }
        }
    }

    pub open spec fn alive_neighbors(&self, i: int) -> nat {
        self.count_alive(self.neighbors(i))
    }

    pub open spec fn superior_neighbors(&self, i: int) -> nat {
        self.count_alive_of(self.neighbors(i), RaceType::Superior)
    }

    /// The next (alive, faction) pair of the cell at index `i`, read from this
    /// generation alone.
    pub open spec fn next_state(&self, i: int) -> (bool, Option<RaceType>) {
        transition(self.cells@[i], self.alive_neighbors(i), self.superior_neighbors(i))
    }

    /// Every listed neighbor lies on the board.
    pub proof fn lemma_neighbors_in_bounds(&self, i: int, k: int)
        ensures
            forall|j: int|
                0 <= j < self.neighbors_upto(i, k).len() ==> self.in_bounds(
                    (#[trigger] self.neighbors_upto(i, k)[j]).0,
                    self.neighbors_upto(i, k)[j].1,
                ),
        decreases k,
    {
        if k > 0 {
            self.lemma_neighbors_in_bounds(i, k - 1);
            let p = self.neighbors_upto(i, k - 1);
            let n = self.neighbor(i, k - 1);
            assert forall|j: int| 0 <= j < self.neighbors_upto(i, k).len() implies self.in_bounds(
                (#[trigger] self.neighbors_upto(i, k)[j]).0,
                self.neighbors_upto(i, k)[j].1,
            ) by {
                if self.in_bounds(n.0, n.1) && j == p.len() {
                    assert(self.neighbors_upto(i, k)[j] == n);
                } else {
                    assert(self.neighbors_upto(i, k)[j] == p[j]);
                }
            }
        }
    }

    /// Some entry of `coords` names the position of index `i`.
    pub open spec fn seeded(&self, coords: Seq<(usize, usize)>, i: int) -> bool {
        exists|j: int|
            0 <= j < coords.len() && (#[trigger] coords[j]).0 as int == self.x_of(i) && coords[j].1 as int
                == self.y_of(i)
    }

    pub fn new(width: usize, height: usize) -> (r: Self)
        requires
            width > 0,
            height > 0,
            width * height <= usize::MAX,
        ensures
            r.wf(),
            r.width == width,
            r.height == height,
            forall|i: int| 0 <= i < r.cells@.len() ==> #[trigger] r.cells@[i] == (Cell { alive: false, race_type: None }),
    {
        let n: usize = width * height;
        Self { width, height, cells: vec![Cell::new(false, None); n] }
    }


    /// The position at offset `k` from the cell at `idx`, if it is on the board.
    fn neighbor_at(&self, idx: usize, k: usize) -> (r: Option<(usize, usize)>)
        requires
            self.wf(),
            idx < self.cells@.len(),
            k < 8,
        ensures
            ({
                let n = self.neighbor(idx as int, k as int);
                match r {
                    Some(p) => self.in_bounds(n.0, n.1) && p.0 as int == n.0 && p.1 as int == n.1,
                    None => !self.in_bounds(n.0, n.1),
                }
            }),
    {
        let (x, y) = self.index_to_coords(idx);
        let (dx, dy) = exec_offset(k);
        let nx: usize;
        if dx < 0 {
            if x == 0 {
                return None;
            }
            nx = x - 1;
        } else if dx > 0 {
            if x + 1 >= self.width {
                return None;
            }
            nx = x + 1;
        } else {
            nx = x;
        }
        let ny: usize;
        if dy < 0 {
            if y == 0 {
                return None;
            }
            ny = y - 1;
        } else if dy > 0 {
            if y + 1 >= self.height {
                return None;
            }
            ny = y + 1;
        } else {
            ny = y;
        }
        Some((nx, ny))
    }

    /// The in-bounds Moore neighbors of the cell at `idx`, in the fixed order
    /// of the offsets.
    pub fn get_neighbor_coords(&self, idx: usize) -> (r: Vec<(usize, usize)>)
        requires
            self.wf(),
            idx < self.cells@.len(),
        ensures
            r@.len() == self.neighbors(idx as int).len(),
            forall|j: int|
                0 <= j < r@.len() ==> (#[trigger] r@[j]).0 as int == self.neighbors(idx as int)[j].0
                    && r@[j].1 as int == self.neighbors(idx as int)[j].1,
    {
        let mut out: Vec<(usize, usize)> = Vec::new();
        let mut k: usize = 0;
        while k < 8
            invariant
                self.wf(),
                idx < self.cells@.len(),
                k <= 8,
                out@.len() == self.neighbors_upto(idx as int, k as int).len(),
                forall|j: int|
                    0 <= j < out@.len() ==> (#[trigger] out@[j]).0 as int == self.neighbors_upto(idx as int, k as int)[j].0
                        && out@[j].1 as int == self.neighbors_upto(idx as int, k as int)[j].1,
            decreases 8 - k,
        {
            let ghost prev = self.neighbors_upto(idx as int, k as int);
            match self.neighbor_at(idx, k) {
                Some(p) => {
                    out.push(p);
                },
                None => {},
            }
            k = k + 1;
            assert(self.neighbors_upto(idx as int, k as int) == if self.in_bounds(
                self.neighbor(idx as int, k - 1).0,
                self.neighbor(idx as int, k - 1).1,
            ) {
                prev.push(self.neighbor(idx as int, k - 1))
            } else {
                prev
            });
        }
        out
    }

    /// The next (alive, faction) pair of the cell at `cell_idx`, computed from
    /// the current generation only.
    pub fn cell_next_state(&self, cell_idx: usize) -> (r: (bool, Option<RaceType>))
        requires
            self.wf(),
            cell_idx < self.cells@.len(),
        ensures
            r == self.next_state(cell_idx as int),
    {
        let cell = self.cells[cell_idx];
        let mut num_alive: usize = 0;
        let mut num_superior: usize = 0;
        let mut k: usize = 0;
        while k < 8
            invariant
                self.wf(),
                cell_idx < self.cells@.len(),
                k <= 8,
                num_alive as int == self.count_alive(self.neighbors_upto(cell_idx as int, k as int)),
                num_superior as int == self.count_alive_of(
                    self.neighbors_upto(cell_idx as int, k as int),
                    RaceType::Superior,
                ),
                self.neighbors_upto(cell_idx as int, k as int).len() <= k,
                num_alive <= k,
                num_superior <= k,
            decreases 8 - k,
        {
            let ghost prev = self.neighbors_upto(cell_idx as int, k as int);
            match self.neighbor_at(cell_idx, k) {
                Some(p) => {
                    let idx = self.coords_to_index(p);
                    let n = self.cells[idx];
                    proof {
                        let cur = prev.push(self.neighbor(cell_idx as int, k as int));
                        assert(cur.drop_last() == prev);
                    }
                    if n.alive {
                        num_alive = num_alive + 1;
                        if n.race_type == Some(RaceType::Superior) {
                            num_superior = num_superior + 1;
                        }
                    }
                },
                None => {},
            }
            k = k + 1;
        }
        if cell.alive && (num_alive == 2 || num_alive == 3) {
            return (true, cell.race_type);
        }
        if !cell.alive && num_alive == 3 {
            if num_superior >= 2 {
                return (true, Some(RaceType::Superior));
            }
            return (true, Some(RaceType::Indoctrination));
        }
        (false, None)
    }

    /// Seeds the board: with `is_init` every cell is first made dead; then each
    /// position of `cells_coords` becomes a live cell of faction `race_type`.
    pub fn set_state(&mut self, cells_coords: &[(usize, usize)], is_init: bool, race_type: Option<RaceType>)
        requires
            old(self).wf(),
            forall|j: int|
                0 <= j < cells_coords@.len() ==> old(self).in_bounds(
                    (#[trigger] cells_coords@[j]).0 as int,
                    cells_coords@[j].1 as int,
                ),
        ensures
            final(self).wf(),
            final(self).width == old(self).width,
            final(self).height == old(self).height,
            forall|i: int|
                0 <= i < final(self).cells@.len() ==> #[trigger] final(self).cells@[i] == if old(self).seeded(
                    cells_coords@,
                    i,
                ) {
                    Cell { alive: true, race_type }
                } else if is_init {
                    Cell { alive: false, race_type: None }
                } else {
                    old(self).cells@[i]
                },
            is_init ==> final(self).cells@ == seeded_board(old(self).width, old(self).height, cells_coords@, race_type),
    {
        let ghost old_grid = *self;
        if is_init {
            self.cells = vec![Cell::new(false, None); self.width * self.height];
        }
        let ghost base = self.cells@;
        let mut j: usize = 0;
        while j < cells_coords.len()
            invariant
                self.wf(),
                self.width == old_grid.width,
                self.height == old_grid.height,
                base.len() == self.cells@.len(),
                forall|i: int|
                    0 <= i < base.len() ==> #[trigger] base[i] == if is_init {
                        Cell { alive: false, race_type: None }
                    } else {
                        old_grid.cells@[i]
                    },
                j <= cells_coords@.len(),
                forall|jj: int|
                    0 <= jj < cells_coords@.len() ==> old_grid.in_bounds(
                        (#[trigger] cells_coords@[jj]).0 as int,
                        cells_coords@[jj].1 as int,
                    ),
                forall|i: int|
                    0 <= i < self.cells@.len() ==> #[trigger] self.cells@[i] == if old_grid.seeded(
                        cells_coords@.take(j as int),
                        i,
                    ) {
                        Cell { alive: true, race_type }
                    } else {
                        base[i]
                    },
            decreases cells_coords@.len() - j,
        {
            let pos = cells_coords[j];
            let idx = self.coords_to_index(pos);
            self.cells.set(idx, Cell::new(true, race_type));
            proof {
                let pre = cells_coords@.take(j as int);
                let cur = cells_coords@.take(j + 1);
                assert forall|i: int| 0 <= i < self.cells@.len() implies #[trigger] self.cells@[i] == if old_grid.seeded(
                    cur,
                    i,
                ) {
                    Cell { alive: true, race_type }
                } else {
                    base[i]
                } by {
                    assert(cur[j as int] == pos);
                    if i == idx {
                        assert(old_grid.seeded(cur, i));
                    } else {
                        lemma_coords_index(self.width as int, self.height as int, i);
                        if old_grid.seeded(cur, i) {
                            let jj = choose|jj: int|
                                0 <= jj < cur.len() && (#[trigger] cur[jj]).0 as int == old_grid.x_of(i)
                                    && cur[jj].1 as int == old_grid.y_of(i);
                            if jj == j {
                                assert(false);
                            } else {
                                assert(pre[jj] == cur[jj]);
                                assert(old_grid.seeded(pre, i));
                            }
                        }
                        if old_grid.seeded(pre, i) {
                            let jj = choose|jj: int|
                                0 <= jj < pre.len() && (#[trigger] pre[jj]).0 as int == old_grid.x_of(i)
                                    && pre[jj].1 as int == old_grid.y_of(i);
                            assert(cur[jj] == pre[jj]);
                        }
                    }
                }
            }
            j = j + 1;
        }
        assert(cells_coords@.take(j as int) == cells_coords@);
        if is_init {
            assert(self.cells@ =~= seeded_board(self.width, self.height, cells_coords@, race_type));
        }
    }

    /// The next state of every cell, evaluated in parallel against this
    /// generation.
    ///
    /// Relies on rayon's `into_par_iter` over a range followed by `map` and
    /// `collect` into a `Vec`: the range is an indexed parallel iterator, so
    /// the vector holds the closure's value at `i` in slot `i`, for every `i`
    /// of the range. The closure only calls `cell_next_state`.
    #[verifier::external_body]
    fn par_next_states(&self) -> (r: Vec<(bool, Option<RaceType>)>)
        requires
            self.wf(),
        ensures
            r@.len() == self.cells@.len(),
            forall|i: int| 0 <= i < r@.len() ==> #[trigger] r@[i] == self.next_state(i),
    {
        (0..self.cells.len()).into_par_iter().map(|idx| self.cell_next_state(idx)).collect::<Vec<(bool, Option<RaceType>)>>()
    }

    /// Advances one generation: every cell's next state is computed from the
    /// current board, then the whole board is replaced.
    pub fn update(&mut self)
        requires
            old(self).wf(),
        ensures
            final(self).wf(),
            final(self).width == old(self).width,
            final(self).height == old(self).height,
            forall|i: int|
                0 <= i < final(self).cells@.len() ==> (#[trigger] final(self).cells@[i]).alive == old(
                    self,
                ).next_state(i).0 && final(self).cells@[i].race_type == old(self).next_state(i).1,
            forall|i: int| 0 <= i < final(self).cells@.len() ==> (#[trigger] final(self).cells@[i]).consistent(),
    {
        let next_states = self.par_next_states();
        let n: usize = self.cells.len();
        let mut cells: Vec<Cell> = Vec::with_capacity(n);
        let mut i: usize = 0;
        while i < n
            invariant
                self.wf(),
                n == self.cells@.len(),
                next_states@.len() == n,
                forall|k: int| 0 <= k < n ==> #[trigger] next_states@[k] == self.next_state(k),
                i <= n,
                cells@.len() == i,
                forall|k: int|
                    0 <= k < i ==> (#[trigger] cells@[k]).alive == self.next_state(k).0 && cells@[k].race_type
                        == self.next_state(k).1,
            decreases n - i,
        {
            let (alive, race) = next_states[i];
            cells.push(Cell::new(alive, race));
            i = i + 1;
        }
        self.cells = cells;
    }

    /// Population of the board: live cells, live "superior" cells, and the
    /// other live cells.
    pub fn cell_tracking(&self) -> (r: (usize, usize, usize))
        ensures
            r.0 == live_total(self.cells@),
            r.1 == live_of(self.cells@, RaceType::Superior),
            r.2 == r.0 - r.1,
    {
        let mut alive: usize = 0;
        let mut superior: usize = 0;
        let mut i: usize = 0;
        while i < self.cells.len()
            invariant
                i <= self.cells@.len(),
                alive == live_total(self.cells@.take(i as int)),
                superior == live_of(self.cells@.take(i as int), RaceType::Superior),
                superior <= alive,
                alive <= i,
            decreases self.cells@.len() - i,
        {
            let c = self.cells[i];
            proof {
                assert(self.cells@.take(i + 1).drop_last() == self.cells@.take(i as int));
                lemma_live_of_le_total(self.cells@.take(i + 1), RaceType::Superior);
            }
            if c.alive {
                alive = alive + 1;
                if c.race_type == Some(RaceType::Superior) {
                    superior = superior + 1;
                }
            }
            i = i + 1;
        }
        assert(self.cells@.take(i as int) == self.cells@);
        (alive, superior, alive - superior)
    }

    /// Converts a pair of cell coordinates to an index in `cells`.
    pub fn coords_to_index(&self, coords: (usize, usize)) -> (r: usize)
        requires
            self.wf(),
            self.in_bounds(coords.0 as int, coords.1 as int),
        ensures
            r == index_of(self.width as int, coords.0 as int, coords.1 as int),
            r < self.cells@.len(),
            self.x_of(r as int) == coords.0,
            self.y_of(r as int) == coords.1,
    {
        let (x, y) = coords;
        proof {
            lemma_index_coords(self.width as int, self.height as int, x as int, y as int);
        }
        y * self.width + x
    }

    /// Converts an index in `cells` to the pair of cell coordinates.
    pub fn index_to_coords(&self, index: usize) -> (r: (usize, usize))
        requires
            self.wf(),
            index < self.cells@.len(),
        ensures
            r.0 == self.x_of(index as int),
            r.1 == self.y_of(index as int),
            self.in_bounds(r.0 as int, r.1 as int),
            index_of(self.width as int, r.0 as int, r.1 as int) == index,
    {
        proof {
            lemma_coords_index(self.width as int, self.height as int, index as int);
        }
        (index % self.width, index / self.width)
    }
}

/// The faction a click seeds, given how many cells are alive: "superior"
/// below 10, "indoctrination" from 10 to 19; from 20 on the click also asks
/// the simulation to run (the second component), seeding "superior".
pub fn click_faction(alive: usize) -> (r: (RaceType, bool))
    ensures
        r == if alive < 10 {
            (RaceType::Superior, false)
        } else if alive < 20 {
            (RaceType::Indoctrination, false)
        } else {
            (RaceType::Superior, true)
        },
{
    if alive < 10 {
        (RaceType::Superior, false)
    } else if alive < 20 {
        (RaceType::Indoctrination, false)
    } else {
        (RaceType::Superior, true)
    }
}

} // verus!
