use vstd::prelude::*;

verus! {

/// The ways in which the engine refuses to go on. None of them is retried.
#[derive(Clone, Copy, Debug, PartialEq, Eq, Structural)]
pub enum AcsError {
    /// An off-diagonal distance is zero, negative, infinite or not a number.
    InvalidDistance,
    /// A tour has fewer than two cities or names a city that does not exist.
    InvalidTour,
    /// A choice was asked for although every city has been visited.
    NoCandidateCities,
    /// Pheromone was to be reinforced before any tour had been recorded.
    EmptyBestTour,
    /// The weights of a roulette draw sum to zero or to a non-finite number.
    DegenerateDistribution,
    /// A score, cost or draw that has to be compared is not a number, or a
    /// pheromone level is not a finite number at or above zero.
    InvalidCost,
    /// An event does not answer the action that the engine is waiting for.
    UnexpectedEvent,
}

impl AcsError {
    /// A short sentence that names the failure.
    pub fn message(&self) -> (text: &'static str)
        ensures
            text@ == describe(*self),
    {
        match self {
            AcsError::InvalidDistance => "invalid distance",
            AcsError::InvalidTour => "invalid tour",
            AcsError::NoCandidateCities => "no candidate cities",
            AcsError::EmptyBestTour => "empty best tour",
            AcsError::DegenerateDistribution => "degenerate distribution",
            AcsError::InvalidCost => "invalid cost",
            AcsError::UnexpectedEvent => "unexpected event",
        }
    }
}

/// The sentence that stands for each failure.
pub open spec fn describe(e: AcsError) -> Seq<char> {
    match e {
        AcsError::InvalidDistance => "invalid distance"@,
        AcsError::InvalidTour => "invalid tour"@,
        AcsError::NoCandidateCities => "no candidate cities"@,
        AcsError::EmptyBestTour => "empty best tour"@,
        AcsError::DegenerateDistribution => "degenerate distribution"@,
        AcsError::InvalidCost => "invalid cost"@,
        AcsError::UnexpectedEvent => "unexpected event"@,
    }
}

} // verus!
