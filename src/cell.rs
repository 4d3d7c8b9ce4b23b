use vstd::prelude::*;

use crate::race::RaceType;

verus! {

/// One unit of the grid: alive or dead, and the faction of a live cell.
#[derive(Clone, Copy, Debug, PartialEq, Eq, Structural)]
pub struct Cell {
    pub alive: bool,
    pub race_type: Option<RaceType>,
}

impl Cell {
    /// A dead cell never carries a faction.
    pub open spec fn consistent(&self) -> bool {
        !self.alive ==> self.race_type is None
    }

    pub fn new(alive: bool, race_type: Option<RaceType>) -> (r: Self)
        ensures
            r.alive == alive,
            r.race_type == race_type,
    {
        Self { alive, race_type }
    }

    pub fn is_alive(&self) -> (r: bool)
        ensures
            r == self.alive,
    {
        self.alive
    }

    pub fn get_race(&self) -> (r: Option<RaceType>)
        ensures
            r == self.race_type,
    {
        self.race_type
    }

    pub fn set_state(&mut self, state: bool, race_type: Option<RaceType>)
        ensures
            final(self).alive == state,
            final(self).race_type == race_type,
    {
        self.alive = state;
        self.race_type = race_type;
    }
}

} // verus!
