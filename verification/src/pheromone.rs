use vstd::prelude::*;
use crate::cost::check_tour;
use crate::error::AcsError;
use crate::matrix::{fits, square, with_cell, Matrix};
use crate::scalar::{Scalar, SIGN_BIT};
use crate::tour::{distinct, within};

verus! {

/// A level that a way can carry: a finite number that is not below zero.
pub open spec fn is_level(level: Scalar) -> bool {
    level.finite() && level.rank() >= 0
}

/// Every entry is a level.
pub open spec fn levels_only(levels: Seq<Scalar>) -> bool {
    forall|k: int| 0 <= k < levels.len() ==> is_level(#[trigger] levels[k])
}

/// Every way of the field carries a level.
pub open spec fn all_levels(tau: Seq<Seq<u64>>) -> bool {
    forall|i: int, j: int|
        0 <= i < tau.len() && 0 <= j < tau.len() ==> is_level(Scalar { bits: #[trigger] tau[i][j] })
}

pub fn check_level(level: Scalar) -> (r: bool)
    ensures
        r == is_level(level),
{
    level.is_finite() && (level.to_bits() < SIGN_BIT || level.is_zero())
}

/// Whether every entry of `levels` is a level.
pub fn check_levels(levels: &Vec<Scalar>) -> (r: bool)
    ensures
        r == levels_only(levels@),
{
    let mut k: usize = 0;
    while k < levels.len()
        invariant
            k <= levels@.len(),
            forall|i: int| 0 <= i < k ==> is_level(#[trigger] levels@[i]),
        decreases levels@.len() - k,
    {
        if !check_level(levels[k]) {
            return false;
        }
        k = k + 1;
    }
    true
}

/// No pheromone lies on the way from a city to itself: the diagonal holds
/// positive zero, whose encoding has no bit set.
pub open spec fn zero_diagonal(tau: Seq<Seq<u64>>) -> bool {
    forall|i: int| 0 <= i < tau.len() ==> (#[trigger] tau[i])[i] == 0
}

/// The field after `level` was laid on the way from `from` to `to`. The way
/// from a city to itself takes none.
pub open spec fn deposited(tau: Seq<Seq<u64>>, from: int, to: int, level: Scalar) -> Seq<Seq<u64>> {
    if from == to {
        tau
    } else {
        with_cell(tau, from, to, level.bits)
    }
}

/// The field after the first `k` steps of `tour` took their new levels, step
/// `i` the level `levels[i]`.
pub open spec fn reinforced(tau: Seq<Seq<u64>>, tour: Seq<usize>, levels: Seq<Scalar>, k: nat) -> Seq<
    Seq<u64>,
>
    decreases k,
{
    if k == 0 {
        tau
    } else {
        deposited(
            reinforced(tau, tour, levels, (k - 1) as nat),
            tour[k - 1] as int,
            tour[k as int] as int,
            levels[k - 1],
        )
    }
}

/// Whether the way from `r` to `c` is a step of `tour`.
pub open spec fn on_tour(tour: Seq<usize>, r: int, c: int) -> bool {
    exists|k: int| 0 <= k < tour.len() - 1 && #[trigger] tour[k] == r && tour[k + 1] == c
}

/// Why a level cannot be laid on a way, if it cannot: it is no number, not
/// finite, or below zero.
pub open spec fn local_failure(level: Scalar) -> Option<AcsError> {
    if is_level(level) {
        None
    } else {
        Some(AcsError::InvalidCost)
    }
}

/// Why the levels of a tour cannot be replaced, if they cannot: no tour was
/// recorded yet, the tour is not one of this field, the new levels are not
/// one for each step, or one of them is no level.
pub open spec fn global_failure(n: nat, tour: Seq<usize>, levels: Seq<Scalar>) -> Option<AcsError> {
    if tour.len() == 0 {
        Some(AcsError::EmptyBestTour)
    } else if tour.len() < 2 || !within(tour, n) {
        Some(AcsError::InvalidTour)
    } else if levels.len() != tour.len() - 1 {
        Some(AcsError::UnexpectedEvent)
    } else if !levels_only(levels) {
        Some(AcsError::InvalidCost)
    } else {
        None
    }
}

/// The field of `n` cities in which every way between two different cities
/// carries `tau0`.
pub open spec fn initial_field(n: nat, tau0: Scalar) -> Seq<Seq<u64>> {
    Seq::new(
        n,
        |i: int|
            Seq::new(
                n,
                |j: int|
                    if i == j {
                        0u64
                    } else {
                        tau0.bits
                    },
            ),
    )
}

/// The field in which every way between two different cities carries `tau0`.
pub fn initialize(n: usize, tau0: Scalar) -> (field: Matrix)
    requires
        fits(n as nat),
    ensures
        field.wf(),
        field.dim() == n,
        zero_diagonal(field@),
        field@ == initial_field(n as nat, tau0),
        is_level(tau0) ==> all_levels(field@),
        forall|i: int, j: int|
            0 <= i < n && 0 <= j < n && i != j ==> #[trigger] field@[i][j] == tau0.bits,
{
    let field: Matrix = Matrix::uniform(n, Scalar::zero_value(), tau0);
    proof {
        assert forall|i: int| 0 <= i < field@.len() implies (#[trigger] field@[i])[i] == 0 by {
            assert(field@[i][i] == 0);
        }
        assert forall|i: int| 0 <= i < n implies #[trigger] field@[i] =~= initial_field(
            n as nat,
            tau0,
        )[i] by {
            assert forall|j: int| 0 <= j < n implies field@[i][j] == initial_field(n as nat, tau0)[i][j] by {
                assert(field@[i][j] == if i == j {
                    0u64
                } else {
                    tau0.bits
                });
            }
        }
        assert(field@ =~= initial_field(n as nat, tau0));
    }
    field
}

/// Puts `level` on the way from `from` to `to` and touches no other way.
fn lay(field: &mut Matrix, from: usize, to: usize, level: Scalar)
    requires
        old(field).wf(),
        from < old(field).dim(),
        to < old(field).dim(),
    ensures
        final(field).wf(),
        final(field).dim() == old(field).dim(),
        final(field)@ == deposited(old(field)@, from as int, to as int, level),
        zero_diagonal(old(field)@) ==> zero_diagonal(final(field)@),
        all_levels(old(field)@) && is_level(level) ==> all_levels(final(field)@),
{
    proof {
        if all_levels(field@) && is_level(level) {
            lemma_deposited_levels(field@, from as int, to as int, level);
        }
    }
    if from != to {
        field.set(from, to, level);
    }
}

/// Lays `level` on the way from `from` to `to`, as soon as an ant has taken
/// it, and touches no other way. `level` is what the local rule makes of the
/// level that was there. It is refused with `InvalidCost`, and the field
/// stays as it was, when it is no finite number or below zero.
pub fn local_update(field: &mut Matrix, from: usize, to: usize, level: Scalar) -> (r: Result<
    (),
    AcsError,
>)
    requires
        old(field).wf(),
        from < old(field).dim(),
        to < old(field).dim(),
    ensures
        final(field).wf(),
        final(field).dim() == old(field).dim(),
        zero_diagonal(old(field)@) ==> zero_diagonal(final(field)@),
        all_levels(old(field)@) ==> all_levels(final(field)@),
        match local_failure(level) {
            Some(e) => r == Err::<(), AcsError>(e) && final(field)@ == old(field)@,
            None => r == Ok::<(), AcsError>(()) && final(field)@ == deposited(
                old(field)@,
                from as int,
                to as int,
                level,
            ),
        },
{
    if !check_level(level) {
        return Err(AcsError::InvalidCost);
    }
    lay(field, from, to, level);
    Ok(())
}

/// Replaces the level on each step of `best_tour` by the one in `levels` and
/// leaves every other way as it was. `levels[k]` is what the global rule
/// makes of the level on step `k`. Where the call fails the field is
/// unchanged.
pub fn global_update(field: &mut Matrix, best_tour: &Vec<usize>, levels: &Vec<Scalar>) -> (r: Result<
    (),
    AcsError,
>)
    requires
        old(field).wf(),
    ensures
        final(field).wf(),
        final(field).dim() == old(field).dim(),
        zero_diagonal(old(field)@) ==> zero_diagonal(final(field)@),
        all_levels(old(field)@) ==> all_levels(final(field)@),
        match global_failure(old(field).dim(), best_tour@, levels@) {
            Some(e) => r == Err::<(), AcsError>(e) && final(field)@ == old(field)@,
            None => r == Ok::<(), AcsError>(()) && final(field)@ == reinforced(
                old(field)@,
                best_tour@,
                levels@,
                (best_tour@.len() - 1) as nat,
            ),
        },
{
    if best_tour.len() == 0 {
        return Err(AcsError::EmptyBestTour);
    }
    let n: usize = field.size();
    if check_tour(best_tour, n).is_err() {
        return Err(AcsError::InvalidTour);
    }
    if levels.len() != best_tour.len() - 1 {
        return Err(AcsError::UnexpectedEvent);
    }
    if !check_levels(levels) {
        return Err(AcsError::InvalidCost);
    }
    let steps: usize = best_tour.len() - 1;
    let mut k: usize = 0;
    while k < steps
        invariant
            steps == best_tour@.len() - 1,
            levels@.len() == steps,
            k <= steps,
            n == old(field).dim(),
            within(best_tour@, n as nat),
            field.wf(),
            field.dim() == n,
            zero_diagonal(old(field)@) ==> zero_diagonal(field@),
            all_levels(old(field)@) ==> all_levels(field@),
            levels_only(levels@),
            field@ == reinforced(old(field)@, best_tour@, levels@, k as nat),
        decreases steps - k,
    {
        lay(field, best_tour[k], best_tour[k + 1], levels[k]);
        k = k + 1;
    }
    Ok(())
}

/// After the levels of a tour that enters no city twice were replaced, each
/// step of the tour carries its new level, and every way that is no step of
/// the tour carries what it carried before. The shape of the field and its
/// diagonal stay as they were.
pub proof fn lemma_reinforced(tau: Seq<Seq<u64>>, tour: Seq<usize>, levels: Seq<Scalar>, k: nat)
    requires
        square(tau, tau.len()),
        within(tour, tau.len()),
        distinct(tour),
        k <= tour.len() - 1,
        k <= levels.len(),
    ensures
        square(reinforced(tau, tour, levels, k), tau.len()),
        forall|i: int|
            0 <= i < k ==> reinforced(tau, tour, levels, k)[#[trigger] tour[i] as int][tour[i
                + 1] as int] == levels[i].bits,
        forall|r: int, c: int|
            0 <= r < tau.len() && 0 <= c < tau.len() && !(exists|i: int|
                0 <= i < k && #[trigger] tour[i] == r && tour[i + 1] == c) ==> reinforced(
                tau,
                tour,
                levels,
                k,
            )[r][c] == tau[r][c],
    decreases k,
{
    if k > 0 {
        let before = reinforced(tau, tour, levels, (k - 1) as nat);
        let after = reinforced(tau, tour, levels, k);
        lemma_reinforced(tau, tour, levels, (k - 1) as nat);
        let from = tour[k - 1] as int;
        let to = tour[k as int] as int;
        assert(from != to);
        assert(after == with_cell(before, from, to, levels[k - 1].bits));
        assert forall|i: int| 0 <= i < k implies after[#[trigger] tour[i] as int][tour[i + 1] as int]
            == levels[i].bits by {
            if i < k - 1 {
                assert(tour[i] != tour[k - 1]);
            }
        }
        assert forall|r: int, c: int|
            0 <= r < tau.len() && 0 <= c < tau.len() && !(exists|i: int|
                0 <= i < k && #[trigger] tour[i] == r && tour[i + 1] == c) implies after[r][c]
            == tau[r][c] by {
            if r == from && c == to {
                assert(tour[k - 1] == r && tour[k - 1 + 1] == c);
            }
            assert(!(exists|i: int| 0 <= i < k - 1 && #[trigger] tour[i] == r && tour[i + 1] == c)) by {
                if exists|i: int| 0 <= i < k - 1 && #[trigger] tour[i] == r && tour[i + 1] == c {
                    let i = choose|i: int| 0 <= i < k - 1 && #[trigger] tour[i] == r && tour[i + 1] == c;
                    assert(0 <= i < k && tour[i] == r && tour[i + 1] == c);
                }
            }
        }
    }
}

/// What holds of a field after `global_update` on a tour that enters no city
/// twice: each step of the tour carries its new level, and every way that is
/// no step of the tour, the diagonal among them, carries what it carried
/// before.
pub proof fn lemma_global_update(tau: Seq<Seq<u64>>, tour: Seq<usize>, levels: Seq<Scalar>)
    requires
        square(tau, tau.len()),
        within(tour, tau.len()),
        distinct(tour),
        tour.len() >= 1,
        levels.len() == tour.len() - 1,
    ensures
        forall|i: int|
            0 <= i < tour.len() - 1 ==> reinforced(
                tau,
                tour,
                levels,
                (tour.len() - 1) as nat,
            )[#[trigger] tour[i] as int][tour[i + 1] as int] == levels[i].bits,
        forall|r: int, c: int|
            0 <= r < tau.len() && 0 <= c < tau.len() && !on_tour(tour, r, c) ==> reinforced(
                tau,
                tour,
                levels,
                (tour.len() - 1) as nat,
            )[r][c] == tau[r][c],
{
    let k = (tour.len() - 1) as nat;
    lemma_reinforced(tau, tour, levels, k);
    assert forall|r: int, c: int|
        0 <= r < tau.len() && 0 <= c < tau.len() && !on_tour(tour, r, c) implies reinforced(
        tau,
        tour,
        levels,
        k,
    )[r][c] == tau[r][c] by {
        if exists|i: int| 0 <= i < k && #[trigger] tour[i] == r && tour[i + 1] == c {
            let i = choose|i: int| 0 <= i < k && #[trigger] tour[i] == r && tour[i + 1] == c;
            assert(0 <= i < tour.len() - 1 && tour[i] == r && tour[i + 1] == c);
        }
    }
}

/// What holds of a field after `local_update` on the way between two
/// different cities: that way carries the new level, every other way
/// carries what it carried before, and the field has the shape it had.
pub proof fn lemma_local_update(tau: Seq<Seq<u64>>, from: int, to: int, level: Scalar)
    requires
        square(tau, tau.len()),
        0 <= from < tau.len(),
        0 <= to < tau.len(),
        from != to,
    ensures
        square(deposited(tau, from, to, level), tau.len()),
        deposited(tau, from, to, level)[from][to] == level.bits,
        forall|r: int, c: int|
            0 <= r < tau.len() && 0 <= c < tau.len() && !(r == from && c == to) ==> deposited(
                tau,
                from,
                to,
                level,
            )[r][c] == tau[r][c],
{
    let after = deposited(tau, from, to, level);
    assert forall|i: int| 0 <= i < tau.len() implies (#[trigger] after[i]).len() == tau.len() by {
        assert(tau[i].len() == tau.len());
    }
}

/// A fresh field carries levels wherever the initial level is one.
pub proof fn lemma_initial_levels(n: nat, tau0: Scalar)
    requires
        is_level(tau0),
    ensures
        all_levels(initial_field(n, tau0)),
{
}

/// A field of levels is a field of levels after a level was laid on one of
/// its ways.
pub proof fn lemma_deposited_levels(tau: Seq<Seq<u64>>, from: int, to: int, level: Scalar)
    requires
        square(tau, tau.len()),
        all_levels(tau),
        0 <= from < tau.len(),
        0 <= to < tau.len(),
        is_level(level),
    ensures
        all_levels(deposited(tau, from, to, level)),
        square(deposited(tau, from, to, level), tau.len()),
{
    let after = deposited(tau, from, to, level);
    assert forall|i: int| 0 <= i < tau.len() implies (#[trigger] after[i]).len() == tau.len() by {
        assert(tau[i].len() == tau.len());
    }
    assert forall|i: int, j: int| 0 <= i < after.len() && 0 <= j < after.len() implies is_level(
        Scalar { bits: #[trigger] after[i][j] },
    ) by {
        assert(is_level(Scalar { bits: tau[i][j] }));
    }
}

/// A field of levels is a field of levels after the steps of a tour took
/// new levels.
pub proof fn lemma_reinforced_levels(tau: Seq<Seq<u64>>, tour: Seq<usize>, levels: Seq<Scalar>, k: nat)
    requires
        square(tau, tau.len()),
        all_levels(tau),
        within(tour, tau.len()),
        k <= tour.len() - 1,
        k <= levels.len(),
        levels_only(levels),
    ensures
        all_levels(reinforced(tau, tour, levels, k)),
        square(reinforced(tau, tour, levels, k), tau.len()),
    decreases k,
{
    if k > 0 {
        lemma_reinforced_levels(tau, tour, levels, (k - 1) as nat);
        lemma_deposited_levels(
            reinforced(tau, tour, levels, (k - 1) as nat),
            tour[k - 1] as int,
            tour[k as int] as int,
            levels[k - 1],
        );
    }
}

} // verus!
