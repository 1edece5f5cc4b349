use vstd::prelude::*;

verus! {

/// How far the preparation of a package has come. The stages are numbered
/// from 0 in the order given here.
#[derive(PartialEq, Eq, Structural, Clone, Copy, Debug)]
pub enum MainCrateState {
    Unknown,
    Downloaded,
    DepsPrepped,
    Built,
    BaseCallgraph,
    FullCallgraph,
}

impl MainCrateState {
    /// The stage with number `mode`; a number that names no stage stands for
    /// `Unknown`.
    pub open spec fn of_code(mode: u8) -> MainCrateState {
        if mode == 1 {
            MainCrateState::Downloaded
        } else if mode == 2 {
            MainCrateState::DepsPrepped
        } else if mode == 3 {
            MainCrateState::Built
        } else if mode == 4 {
            MainCrateState::BaseCallgraph
        } else if mode == 5 {
            MainCrateState::FullCallgraph
        } else {
            MainCrateState::Unknown
        }
    }

    /// The number of the stage.
    pub open spec fn code_of(self) -> u8 {
        match self {
            MainCrateState::Unknown => 0,
            MainCrateState::Downloaded => 1,
            MainCrateState::DepsPrepped => 2,
            MainCrateState::Built => 3,
            MainCrateState::BaseCallgraph => 4,
            MainCrateState::FullCallgraph => 5,
        }
    }

    /// The stage with number `mode`.
    pub fn from(mode: u8) -> (state: MainCrateState)
        ensures
            state == MainCrateState::of_code(mode),
            mode <= 5 ==> state.code_of() == mode,
            mode > 5 ==> state == MainCrateState::Unknown,
    {
        match mode {
            0 => MainCrateState::Unknown,
            1 => MainCrateState::Downloaded,
            2 => MainCrateState::DepsPrepped,
            3 => MainCrateState::Built,
            4 => MainCrateState::BaseCallgraph,
            5 => MainCrateState::FullCallgraph,
            _ => MainCrateState::Unknown,
        }
    }

    /// The number of the stage, as it is stored.
    pub fn code(&self) -> (mode: u8)
        ensures
            mode == self.code_of(),
            MainCrateState::of_code(mode) == *self,
    {
        match self {
            MainCrateState::Unknown => 0,
            MainCrateState::Downloaded => 1,
            MainCrateState::DepsPrepped => 2,
            MainCrateState::Built => 3,
            MainCrateState::BaseCallgraph => 4,
            MainCrateState::FullCallgraph => 5,
        }
    }
}

} // verus!
