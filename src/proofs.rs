use vstd::prelude::*;

use crate::cell::Cell;
use crate::grid::{lemma_coords_index, Grid, offset};
use crate::race::RaceType;

verus! {

/// Whether offset `k` from index `i` lands on the board.
pub open spec fn lands(g: Grid, i: int, k: int) -> bool {
    g.in_bounds(g.neighbor(i, k).0, g.neighbor(i, k).1)
}

/// 1 when offset `k` from index `i` lands on a live cell, else 0.
pub open spec fn live_at(g: Grid, i: int, k: int) -> nat {
    if lands(g, i, k) && g.cell_at(g.neighbor(i, k).0, g.neighbor(i, k).1).alive {
        1
    } else {
        0
    }
}

/// Each offset adds one entry to the neighbor list exactly when it lands on
/// the board, and adds one to the live count exactly when that entry is alive.
proof fn lemma_step(g: Grid, i: int, k: int)
    requires
        k > 0,
    ensures
        g.neighbors_upto(i, k).len() == g.neighbors_upto(i, k - 1).len() + if lands(g, i, k - 1) {
            1int
        } else {
            0int
        },
        g.count_alive(g.neighbors_upto(i, k)) == g.count_alive(g.neighbors_upto(i, k - 1)) + live_at(
            g,
            i,
            k - 1,
        ),
{
    let p = g.neighbors_upto(i, k - 1);
    let n = g.neighbor(i, k - 1);
    if lands(g, i, k - 1) {
        assert(p.push(n).drop_last() == p);
    }
}

proof fn lemma_all_steps(g: Grid, i: int)
    ensures
        g.neighbors(i).len() == (if lands(g, i, 0) { 1int } else { 0int }) + (if lands(g, i, 1) {
            1int
        } else {
            0int
        }) + (if lands(g, i, 2) { 1int } else { 0int }) + (if lands(g, i, 3) { 1int } else { 0int }) + (
        if lands(g, i, 4) {
            1int
        } else {
            0int
        }) + (if lands(g, i, 5) { 1int } else { 0int }) + (if lands(g, i, 6) { 1int } else { 0int }) + (
        if lands(g, i, 7) {
            1int
        } else {
            0int
        }),
        g.alive_neighbors(i) == live_at(g, i, 0) + live_at(g, i, 1) + live_at(g, i, 2) + live_at(g, i, 3)
            + live_at(g, i, 4) + live_at(g, i, 5) + live_at(g, i, 6) + live_at(g, i, 7),
{
    lemma_step(g, i, 1);
    lemma_step(g, i, 2);
    lemma_step(g, i, 3);
    lemma_step(g, i, 4);
    lemma_step(g, i, 5);
    lemma_step(g, i, 6);
    lemma_step(g, i, 7);
    lemma_step(g, i, 8);
    assert(g.neighbors_upto(i, 0).len() == 0);
}

/// The clipped Moore neighborhood has 3 positions at a corner, 5 on an edge
/// away from the corners, and 8 inside, on any board at least 2 by 2 (the
/// inner case on any board).
pub proof fn lemma_neighbor_counts(g: Grid, i: int)
    requires
        g.wf(),
        0 <= i < g.cells@.len(),
    ensures
        ({
            let x = g.x_of(i);
            let y = g.y_of(i);
            let w = g.width as int;
            let h = g.height as int;
            let x_border = x == 0 || x == w - 1;
            let y_border = y == 0 || y == h - 1;
            &&& (w >= 2 && h >= 2 && x_border && y_border) ==> g.neighbors(i).len() == 3
            &&& (w >= 2 && h >= 2 && (x_border != y_border)) ==> g.neighbors(i).len() == 5
            &&& (!x_border && !y_border) ==> g.neighbors(i).len() == 8
        }),
{
    lemma_coords_index(g.width as int, g.height as int, i);
    lemma_all_steps(g, i);
}

/// A dead cell with exactly three live neighbors comes alive: as "superior"
/// when at least two of them are superior, and as "indoctrination" otherwise.
pub proof fn lemma_birth_conversion(g: Grid, i: int)
    requires
        g.wf(),
        0 <= i < g.cells@.len(),
        !g.cells@[i].alive,
        g.alive_neighbors(i) == 3,
    ensures
        g.superior_neighbors(i) >= 2 ==> g.next_state(i) == (true, Some(RaceType::Superior)),
        g.superior_neighbors(i) < 2 ==> g.next_state(i) == (true, Some(RaceType::Indoctrination)),
{
}

/// The live cells of `g` are exactly the 2 by 2 square whose top-left corner
/// is `(bx, by)`.
pub open spec fn is_lone_block(g: Grid, bx: int, by: int) -> bool {
    &&& g.in_bounds(bx, by)
    &&& g.in_bounds(bx + 1, by + 1)
    &&& forall|x: int, y: int|
        g.in_bounds(x, y) ==> (#[trigger] g.cell_at(x, y)).alive == (bx <= x <= bx + 1 && by <= y <= by + 1)
}

/// A lone 2 by 2 block is a still life: every cell's next state is its
/// current state, so the board after a generation is the same board again.
pub proof fn lemma_block_still_life(g: Grid, bx: int, by: int)
    requires
        g.wf(),
        is_lone_block(g, bx, by),
        forall|i: int| 0 <= i < g.cells@.len() ==> (#[trigger] g.cells@[i]).consistent(),
    ensures
        forall|i: int|
            0 <= i < g.cells@.len() ==> #[trigger] g.next_state(i) == (g.cells@[i].alive, g.cells@[i].race_type),
{
    assert forall|i: int| 0 <= i < g.cells@.len() implies #[trigger] g.next_state(i) == (
    g.cells@[i].alive,
    g.cells@[i].race_type,
    ) by {
        lemma_coords_index(g.width as int, g.height as int, i);
        lemma_all_steps(g, i);
        let x = g.x_of(i);
        let y = g.y_of(i);
        assert(g.cells@[i] == g.cell_at(x, y));
        let c: Cell = g.cells@[i];
        assert(c.alive == (bx <= x <= bx + 1 && by <= y <= by + 1));
        assert(offset(0) == (-1int, 1int));
        assert(offset(7) == (1int, -1int));
        if lands(g, i, 0) {
            assert(g.cell_at(x - 1, y + 1).alive == (bx <= x - 1 <= bx + 1 && by <= y + 1 <= by + 1));
        }
        if lands(g, i, 1) {
            assert(g.cell_at(x, y + 1).alive == (bx <= x <= bx + 1 && by <= y + 1 <= by + 1));
        }
        if lands(g, i, 2) {
            assert(g.cell_at(x + 1, y + 1).alive == (bx <= x + 1 <= bx + 1 && by <= y + 1 <= by + 1));
        }
        if lands(g, i, 3) {
            assert(g.cell_at(x - 1, y).alive == (bx <= x - 1 <= bx + 1 && by <= y <= by + 1));
        }
        if lands(g, i, 4) {
            assert(g.cell_at(x + 1, y).alive == (bx <= x + 1 <= bx + 1 && by <= y <= by + 1));
        }
        if lands(g, i, 5) {
            assert(g.cell_at(x - 1, y - 1).alive == (bx <= x - 1 <= bx + 1 && by <= y - 1 <= by + 1));
        }
        if lands(g, i, 6) {
            assert(g.cell_at(x, y - 1).alive == (bx <= x <= bx + 1 && by <= y - 1 <= by + 1));
        }
        if lands(g, i, 7) {
            assert(g.cell_at(x + 1, y - 1).alive == (bx <= x + 1 <= bx + 1 && by <= y - 1 <= by + 1));
        }
    }
}

/// A lone block survives any number of generations: a board related to a
/// lone-block board `g` as `Grid::update` relates its result to its input is
/// `g` again, so it meets the same conditions for the next generation.
pub proof fn lemma_block_persists(g: Grid, next: Grid, bx: int, by: int)
    requires
        g.wf(),
        is_lone_block(g, bx, by),
        forall|i: int| 0 <= i < g.cells@.len() ==> (#[trigger] g.cells@[i]).consistent(),
        next.width == g.width,
        next.height == g.height,
        next.cells@.len() == g.cells@.len(),
        forall|i: int|
            0 <= i < next.cells@.len() ==> (#[trigger] next.cells@[i]).alive == g.next_state(i).0
                && next.cells@[i].race_type == g.next_state(i).1,
    ensures
        next.cells@ == g.cells@,
        next.wf(),
        is_lone_block(next, bx, by),
        forall|i: int| 0 <= i < next.cells@.len() ==> (#[trigger] next.cells@[i]).consistent(),
{
    lemma_block_still_life(g, bx, by);
    assert forall|i: int| 0 <= i < next.cells@.len() implies #[trigger] next.cells@[i] == g.cells@[i] by {
        assert(g.next_state(i) == (g.cells@[i].alive, g.cells@[i].race_type));
    }
    assert(next.cells@ =~= g.cells@);
    assert forall|x: int, y: int| next.in_bounds(x, y) implies (#[trigger] next.cell_at(x, y)).alive == (bx <= x
        <= bx + 1 && by <= y <= by + 1) by {
        assert(next.cell_at(x, y) == g.cell_at(x, y));
    }
}

} // verus!
