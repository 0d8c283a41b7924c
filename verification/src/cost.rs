use vstd::prelude::*;
use crate::error::AcsError;
use crate::matrix::{along_cells, Matrix};
use crate::scalar::Scalar;
use crate::tour::within;

verus! {

/// A distance that has a reciprocal worth using: a finite number greater
/// than zero.
pub open spec fn valid_distance(d: Scalar) -> bool {
    d.finite() && d.positive()
}

/// Every distance between two different cities is valid. The diagonal is not
/// looked at.
pub open spec fn valid_distances(m: Seq<Seq<u64>>) -> bool {
    forall|i: int, j: int|
        0 <= i < m.len() && 0 <= j < m.len() && i != j ==> valid_distance(
            Scalar { bits: #[trigger] m[i][j] },
        )
}

/// A tour whose cost can be taken: it has a step at least, and every city
/// in it is one of the `n` cities.
pub open spec fn valid_tour(t: Seq<usize>, n: nat) -> bool {
    t.len() >= 2 && within(t, n)
}

pub fn is_valid_distance(d: Scalar) -> (r: bool)
    ensures
        r == valid_distance(d),
{
    d.is_finite() && d.is_positive()
}

/// Accepts a table of distances, or refuses it with `InvalidDistance` when a
/// distance between two different cities is zero, negative, infinite or no
/// number: such a distance has no reciprocal that could serve as visibility.
pub fn check_distances(distances: &Matrix) -> (r: Result<(), AcsError>)
    requires
        distances.wf(),
    ensures
        valid_distances(distances@) ==> r == Ok::<(), AcsError>(()),
        !valid_distances(distances@) ==> r == Err::<(), AcsError>(AcsError::InvalidDistance),
{
    let n: usize = distances.size();
    let mut i: usize = 0;
    while i < n
        invariant
            distances.wf(),
            n == distances.dim(),
            i <= n,
            forall|r: int, c: int|
                0 <= r < i && 0 <= c < n && r != c ==> valid_distance(
                    Scalar { bits: #[trigger] distances@[r][c] },
                ),
        decreases n - i,
    {
        let mut j: usize = 0;
        while j < n
            invariant
                distances.wf(),
                n == distances.dim(),
                i < n,
                j <= n,
                forall|r: int, c: int|
                    0 <= r < i && 0 <= c < n && r != c ==> valid_distance(
                        Scalar { bits: #[trigger] distances@[r][c] },
                    ),
                forall|c: int|
                    0 <= c < j && c != i ==> valid_distance(
                        Scalar { bits: #[trigger] distances@[i as int][c] },
                    ),
            decreases n - j,
        {
            if i != j && !is_valid_distance(distances.get(i, j)) {
                assert(!valid_distance(Scalar { bits: distances@[i as int][j as int] }));
                return Err(AcsError::InvalidDistance);
            }
            j = j + 1;
        }
        i = i + 1;
    }
    Ok(())
}

/// Accepts a tour, or refuses it with `InvalidTour` when it has fewer than
/// two cities or names a city that is not one of the `n`.
pub fn check_tour(tour: &Vec<usize>, n: usize) -> (r: Result<(), AcsError>)
    ensures
        valid_tour(tour@, n as nat) ==> r == Ok::<(), AcsError>(()),
        !valid_tour(tour@, n as nat) ==> r == Err::<(), AcsError>(AcsError::InvalidTour),
{
    if tour.len() < 2 {
        return Err(AcsError::InvalidTour);
    }
    let mut k: usize = 0;
    while k < tour.len()
        invariant
            k <= tour@.len(),
            forall|i: int| 0 <= i < k ==> tour@[i] < n,
        decreases tour@.len() - k,
    {
        if tour[k] >= n {
            return Err(AcsError::InvalidTour);
        }
        k = k + 1;
    }
    Ok(())
}

/// The distances of the steps of a tour, in the order of the steps: the
/// cost of the tour is their sum. The last city has no step back to the
/// first. A tour that `check_tour` refuses is refused here.
pub fn edge_lengths(distances: &Matrix, tour: &Vec<usize>) -> (r: Result<Vec<Scalar>, AcsError>)
    requires
        distances.wf(),
    ensures
        valid_tour(tour@, distances.dim()) ==> r.is_ok() && r.unwrap()@ == along_cells(
            distances@,
            tour@,
        ),
        !valid_tour(tour@, distances.dim()) ==> r == Err::<Vec<Scalar>, AcsError>(
            AcsError::InvalidTour,
        ),
{
    match check_tour(tour, distances.size()) {
        Ok(()) => Ok(distances.along(tour)),
        Err(e) => Err(e),
    }
}

} // verus!
