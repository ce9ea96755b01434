//! Plans that mark beside the mutators, or in slices between them.

pub mod bactrian;
pub mod global;

use vstd::prelude::*;

verus! {

/// The kinds of pause of a concurrent plan.
#[derive(Debug, Clone, Copy, PartialEq, Eq, Structural)]
pub enum Pause {
    /// A whole collection in one pause.
    Full,
    /// The pause before concurrent marking.
    InitialMark,
    /// The pause after concurrent marking.
    FinalMark,
    /// A nursery collection. Marking may be in progress, and is left as it is.
    Nursery,
}

impl Default for Pause {
    fn default() -> (pause: Self)
        ensures
            pause == Pause::Full,
    {
        Pause::Full
    }
}

/// The code of a pause, or of none.
pub open spec fn pause_code(pause: Option<Pause>) -> u8 {
    match pause {
        None => 0,
        Some(Pause::Full) => 1,
        Some(Pause::InitialMark) => 2,
        Some(Pause::FinalMark) => 3,
        Some(Pause::Nursery) => 4,
    }
}

/// The pause that a code stands for.
pub open spec fn code_pause(code: u8) -> Option<Pause> {
    if code == 1 {
        Some(Pause::Full)
    } else if code == 2 {
        Some(Pause::InitialMark)
    } else if code == 3 {
        Some(Pause::FinalMark)
    } else if code == 4 {
        Some(Pause::Nursery)
    } else {
        None
    }
}

/// A pause survives its encoding.
pub proof fn law_pause_code_round_trips(pause: Option<Pause>)
    ensures
        code_pause(pause_code(pause)) == pause,
{
}

/// The code of a pause, or of none.
pub fn encode_pause(pause: Option<Pause>) -> (code: u8)
    ensures
        code == pause_code(pause),
{
    match pause {
        None => 0,
        Some(Pause::Full) => 1,
        Some(Pause::InitialMark) => 2,
        Some(Pause::FinalMark) => 3,
        Some(Pause::Nursery) => 4,
    }
}

/// The pause that a code stands for.
pub fn decode_pause(code: u8) -> (pause: Option<Pause>)
    ensures
        pause == code_pause(code),
{
    if code == 1 {
        Some(Pause::Full)
    } else if code == 2 {
        Some(Pause::InitialMark)
    } else if code == 3 {
        Some(Pause::FinalMark)
    } else if code == 4 {
        Some(Pause::Nursery)
    } else {
        None
    }
}

} // verus!
