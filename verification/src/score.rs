use vstd::prelude::*;

verus! {

/// How strongly a soft constraint speaks for (or against) a candidate.
#[allow(non_camel_case_types)]
#[derive(Clone, Copy, Debug, PartialEq, Eq, Structural)]
pub enum Score {
    PUNISHMENT_Heavy,
    Neutral,
    REWARD_Light,
    REWARD_Heavy,
}

/// The weight of a score, in hundredths of a point.
pub open spec fn spec_weight(s: Score) -> int {
    match s {
        Score::PUNISHMENT_Heavy => -80,
        Score::Neutral => 0,
        Score::REWARD_Light => 40,
        Score::REWARD_Heavy => 80,
    }
}

impl Score {
    /// The weight of this score, in hundredths of a point.
    pub fn weight(&self) -> (r: i64)
        ensures
            r == spec_weight(*self),
    {
        match self {
            Score::PUNISHMENT_Heavy => -80,
            Score::Neutral => 0,
            Score::REWARD_Light => 40,
            Score::REWARD_Heavy => 80,
        }
    }
}

} // verus!
