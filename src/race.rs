use vstd::prelude::*;

use crate::grid::Grid;

verus! {

/// The factions a live cell can belong to.
#[derive(Clone, Copy, Debug, PartialEq, Eq, Structural)]
pub enum RaceType {
    Superior,
    Indoctrination,
    Necrodancer,
}

/// A read-only evaluator that may propose a faction for one cell of a board.
pub trait Rule {
    /// What the rule proposes for index `idx` of `grid`.
    spec fn proposal(&self, grid: Grid, idx: int) -> Option<RaceType>;

    fn apply(&self, grid: &Grid, idx: usize) -> (r: Option<RaceType>)
        requires
            grid.wf(),
            idx < grid.cells@.len(),
        ensures
            r == self.proposal(*grid, idx as int),
    ;
}

/// Proposes `target` for a cell with at least `threshold` live neighbors of
/// faction `target`.
#[derive(Clone, Copy, Debug, PartialEq, Eq, Structural)]
pub struct NeighborRule {
    pub target: RaceType,
    pub threshold: usize,
}

impl Rule for NeighborRule {
    open spec fn proposal(&self, grid: Grid, idx: int) -> Option<RaceType> {
        if grid.count_alive_of(grid.neighbors(idx), self.target) >= self.threshold {
            Some(self.target)
        } else {
            None
        }
    }

    fn apply(&self, grid: &Grid, idx: usize) -> (r: Option<RaceType>) {
        let coords = grid.get_neighbor_coords(idx);
        let ghost nb = grid.neighbors(idx as int);
        proof {
            grid.lemma_neighbors_in_bounds(idx as int, 8);
        }
        let mut count: usize = 0;
        let mut j: usize = 0;
        while j < coords.len()
            invariant
                grid.wf(),
                coords@.len() == nb.len(),
                forall|k: int|
                    0 <= k < coords@.len() ==> (#[trigger] coords@[k]).0 as int == nb[k].0 && coords@[k].1 as int
                        == nb[k].1,
                forall|k: int| 0 <= k < nb.len() ==> grid.in_bounds((#[trigger] nb[k]).0, nb[k].1),
                j <= coords@.len(),
                count <= j,
                count as int == grid.count_alive_of(nb.take(j as int), self.target),
            decreases coords@.len() - j,
        {
            let idx_n = grid.coords_to_index(coords[j]);
            let c = grid.cells[idx_n];
            proof {
                assert(nb.take(j + 1).drop_last() == nb.take(j as int));
            }
            if c.alive && c.race_type == Some(self.target) {
                count = count + 1;
            }
            j = j + 1;
        }
        assert(nb.take(j as int) == nb);
        if count >= self.threshold {
            Some(self.target)
        } else {
            None
        }
    }
}

/// A faction and its rules, kept in registration order.
#[derive(Clone, Debug)]
pub struct Race<R: Rule> {
    pub race_type: Option<RaceType>,
    pub rules: Vec<R>,
}

impl<R: Rule> Race<R> {
    pub fn new(race_type: Option<RaceType>) -> (r: Self)
        ensures
            r.race_type == race_type,
            r.rules@.len() == 0,
    {
        Self { race_type, rules: Vec::new() }
    }

    pub fn add_rule(&mut self, rule: R)
        ensures
            final(self).race_type == old(self).race_type,
            final(self).rules@ == old(self).rules@.push(rule),
    {
        self.rules.push(rule)
    }

    /// Evaluates every rule, in registration order, against index `idx` of
    /// `grid`; the result holds each rule's proposal at the rule's position.
    pub fn apply_all_rules(&self, grid: &Grid, idx: usize) -> (r: Vec<Option<RaceType>>)
        requires
            grid.wf(),
            idx < grid.cells@.len(),
        ensures
            r@.len() == self.rules@.len(),
            forall|k: int| 0 <= k < r@.len() ==> #[trigger] r@[k] == self.rules@[k].proposal(*grid, idx as int),
    {
        let mut out: Vec<Option<RaceType>> = Vec::new();
        let mut k: usize = 0;
        while k < self.rules.len()
            invariant
                grid.wf(),
                idx < grid.cells@.len(),
                k <= self.rules@.len(),
                out@.len() == k,
                forall|m: int| 0 <= m < k ==> #[trigger] out@[m] == self.rules@[m].proposal(*grid, idx as int),
            decreases self.rules@.len() - k,
        {
            let p = self.rules[k].apply(grid, idx);
            out.push(p);
            k = k + 1;
        }
        out
    }
}

impl Race<NeighborRule> {
    /// The "superior" faction: proposes itself where two or more live
    /// neighbors are already superior.
    pub fn create_superior() -> (r: Race<NeighborRule>)
        ensures
            r.race_type == Some(RaceType::Superior),
            r.rules@ == seq![NeighborRule { target: RaceType::Superior, threshold: 2 }],
    {
        let mut race = Race::new(Some(RaceType::Superior));
        race.add_rule(NeighborRule { target: RaceType::Superior, threshold: 2 });
        assert(race.rules@ == seq![NeighborRule { target: RaceType::Superior, threshold: 2 }]);
        race
    }

    /// The "indoctrination" faction: proposes itself where two or more live
    /// neighbors already belong to it.
    pub fn create_indoctrinator() -> (r: Race<NeighborRule>)
        ensures
            r.race_type == Some(RaceType::Indoctrination),
            r.rules@ == seq![NeighborRule { target: RaceType::Indoctrination, threshold: 2 }],
    {
        let mut race = Race::new(Some(RaceType::Indoctrination));
        race.add_rule(NeighborRule { target: RaceType::Indoctrination, threshold: 2 });
        assert(race.rules@ == seq![NeighborRule { target: RaceType::Indoctrination, threshold: 2 }]);
        race
    }
}

} // verus!
