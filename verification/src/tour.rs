use vstd::prelude::*;
use crate::error::AcsError;
use crate::scalar::Scalar;

verus! {

/// No city occurs twice.
pub open spec fn distinct(t: Seq<usize>) -> bool {
    forall|i: int, j: int| 0 <= i < j < t.len() ==> t[i] != t[j]
}

/// Every city is one of the `n` cities.
pub open spec fn within(t: Seq<usize>, n: nat) -> bool {
    forall|i: int| 0 <= i < t.len() ==> t[i] < n
}

/// A path that an ant has walked so far: it begins at `initial`, stays among
/// the `n` cities and enters none twice.
pub open spec fn is_path(t: Seq<usize>, n: nat, initial: usize) -> bool {
    &&& t.len() >= 1
    &&& t[0] == initial
    &&& within(t, n)
    &&& distinct(t)
}

/// A finished tour: a path through all `n` cities. It is open, with no way
/// back to the first city.
pub open spec fn is_tour(t: Seq<usize>, n: nat, initial: usize) -> bool {
    is_path(t, n, initial) && t.len() == n
}

/// The cities below `k` that `visited` does not hold, in rising order.
pub open spec fn unvisited_below(visited: Seq<usize>, k: nat) -> Seq<usize>
    decreases k,
{
    if k == 0 {
        Seq::empty()
    } else {
        let rest = unvisited_below(visited, (k - 1) as nat);
        if visited.contains((k - 1) as usize) {
            rest
        } else {
            rest.push((k - 1) as usize)
        }
    }
}

/// The cities that an ant may still enter, in rising order.
pub open spec fn candidates_of(visited: Seq<usize>, n: nat) -> Seq<usize> {
    unvisited_below(visited, n)
}

/// How many entries of `t` are cities below `k`.
pub open spec fn count_below(t: Seq<usize>, k: nat) -> nat
    decreases t.len(),
{
    if t.len() == 0 {
        0
    } else {
        count_below(t.drop_last(), k) + if t.last() < k {
            1nat
        } else {
            0nat
        }
    }
}

/// The candidates are the cities below `k` that were not visited: each of
/// them is one, each such city is among them, and they rise.
pub proof fn lemma_unvisited_below(visited: Seq<usize>, k: nat)
    requires
        k <= usize::MAX,
    ensures
        forall|i: int|
            0 <= i < unvisited_below(visited, k).len() ==> {
                &&& (#[trigger] unvisited_below(visited, k)[i]) < k
                &&& !visited.contains(unvisited_below(visited, k)[i])
            },
        forall|c: usize| c < k && !visited.contains(c) ==> unvisited_below(visited, k).contains(c),
        forall|i: int, j: int|
            0 <= i < j < unvisited_below(visited, k).len() ==> unvisited_below(visited, k)[i]
                < unvisited_below(visited, k)[j],
        unvisited_below(visited, k).len() <= k,
    decreases k,
{
    if k > 0 {
        let rest = unvisited_below(visited, (k - 1) as nat);
        lemma_unvisited_below(visited, (k - 1) as nat);
        let last = (k - 1) as usize;
        let all = unvisited_below(visited, k);
        assert forall|c: usize| c < k && !visited.contains(c) implies all.contains(c) by {
            if c == last {
                assert(all == rest.push(last));
                assert(all[rest.len() as int] == last);
            } else {
                assert(rest.contains(c));
                let i = choose|i: int| 0 <= i < rest.len() && rest[i] == c;
                assert(all[i] == c);
            }
        }
    }
}

proof fn lemma_count_below_step(t: Seq<usize>, k: nat)
    requires
        distinct(t),
        k < usize::MAX,
    ensures
        count_below(t, k + 1) == count_below(t, k) + if t.contains(k as usize) {
            1nat
        } else {
            0nat
        },
    decreases t.len(),
{
    if t.len() > 0 {
        let front = t.drop_last();
        assert(distinct(front));
        lemma_count_below_step(front, k);
        if t.last() == k {
            assert(t[t.len() - 1] == k as usize);
            assert(t.contains(k as usize));
            if front.contains(k as usize) {
                let i = choose|i: int| 0 <= i < front.len() && front[i] == k as usize;
                assert(t[i] == t[t.len() - 1]);
            }
        } else {
            if t.contains(k as usize) {
                let i = choose|i: int| 0 <= i < t.len() && t[i] == k as usize;
                assert(front[i] == k as usize);
            }
            if front.contains(k as usize) {
                let i = choose|i: int| 0 <= i < front.len() && front[i] == k as usize;
                assert(t[i] == k as usize);
            }
        }
    } else {
        assert(!t.contains(k as usize));
    }
}

proof fn lemma_count_below_all(t: Seq<usize>, n: nat)
    requires
        within(t, n),
    ensures
        count_below(t, n) == t.len(),
        count_below(t, 0) == 0,
    decreases t.len(),
{
    if t.len() > 0 {
        assert(within(t.drop_last(), n));
        lemma_count_below_all(t.drop_last(), n);
    }
}

proof fn lemma_unvisited_count(visited: Seq<usize>, k: nat)
    requires
        distinct(visited),
        k <= usize::MAX,
    ensures
        unvisited_below(visited, k).len() + count_below(visited, k) == k,
    decreases k,
{
    if k == 0 {
        lemma_count_below_zero(visited);
    } else {
        lemma_unvisited_count(visited, (k - 1) as nat);
        lemma_count_below_step(visited, (k - 1) as nat);
    }
}

proof fn lemma_count_below_zero(t: Seq<usize>)
    ensures
        count_below(t, 0) == 0,
    decreases t.len(),
{
    if t.len() > 0 {
        lemma_count_below_zero(t.drop_last());
    }
}

/// An ant that has entered `len` different cities out of `n` has `n - len`
/// cities left to choose from.
pub proof fn lemma_candidates_len(visited: Seq<usize>, n: nat)
    requires
        distinct(visited),
        within(visited, n),
        n <= usize::MAX,
    ensures
        candidates_of(visited, n).len() == n - visited.len(),
{
    lemma_unvisited_count(visited, n);
    lemma_count_below_all(visited, n);
}

/// A finished tour is a permutation of the cities: it has `n` entries, none
/// twice, and each of the `n` cities is one of them.
pub proof fn lemma_tour_is_permutation(t: Seq<usize>, n: nat, initial: usize)
    requires
        is_tour(t, n, initial),
        n <= usize::MAX,
    ensures
        t.len() == n,
        t[0] == initial,
        distinct(t),
        forall|c: usize| c < n ==> t.contains(c),
{
    lemma_candidates_len(t, n);
    lemma_unvisited_below(t, n);
    assert forall|c: usize| c < n implies t.contains(c) by {
        if !t.contains(c) {
            assert(candidates_of(t, n).contains(c));
        }
    }
}

/// Entering a candidate keeps a path a path.
pub proof fn lemma_path_extends(visited: Seq<usize>, n: nat, initial: usize, i: int)
    requires
        is_path(visited, n, initial),
        n <= usize::MAX,
        0 <= i < candidates_of(visited, n).len(),
    ensures
        is_path(visited.push(candidates_of(visited, n)[i]), n, initial),
        visited.len() < n,
{
    lemma_unvisited_below(visited, n);
    lemma_candidates_len(visited, n);
    let c = candidates_of(visited, n)[i];
    let next = visited.push(c);
    assert(!visited.contains(c));
    assert forall|a: int, b: int| 0 <= a < b < next.len() implies next[a] != next[b] by {
        if b == visited.len() {
            assert(visited[a] == next[a]);
        }
    }
}

/// Whether `city` is among `visited`.
pub fn is_visited(visited: &Vec<usize>, city: usize) -> (r: bool)
    ensures
        r == visited@.contains(city),
{
    let mut i: usize = 0;
    while i < visited.len()
        invariant
            i <= visited@.len(),
            forall|k: int| 0 <= k < i ==> visited@[k] != city,
        decreases visited@.len() - i,
    {
        if visited[i] == city {
            return true;
        }
        i = i + 1;
    }
    false
}

/// The cities among the `n` that `visited` does not hold, in rising order.
pub fn candidates(visited: &Vec<usize>, n: usize) -> (r: Vec<usize>)
    ensures
        r@ == candidates_of(visited@, n as nat),
{
    let mut r: Vec<usize> = Vec::new();
    let mut city: usize = 0;
    while city < n
        invariant
            city <= n,
            r@ == unvisited_below(visited@, city as nat),
        decreases n - city,
    {
        if !is_visited(visited, city) {
            r.push(city);
        }
        city = city + 1;
    }
    r
}

/// A copy of a list of cities.
pub fn copy_cities(cities: &Vec<usize>) -> (r: Vec<usize>)
    ensures
        r@ == cities@,
{
    let mut r: Vec<usize> = Vec::new();
    let mut k: usize = 0;
    while k < cities.len()
        invariant
            k <= cities@.len(),
            r@ == cities@.take(k as int),
        decreases cities@.len() - k,
    {
        r.push(cities[k]);
        assert(cities@.take(k + 1) =~= cities@.take(k as int).push(cities@[k as int]));
        k = k + 1;
    }
    assert(cities@.take(cities@.len() as int) =~= cities@);
    r
}

/// Every entry is a number.
pub open spec fn all_numbers(s: Seq<Scalar>) -> bool {
    forall|i: int| 0 <= i < s.len() ==> !(#[trigger] s[i]).nan()
}

/// Whether `i` is the place of the greatest score, and the last such place
/// where the greatest score occurs more than once.
pub open spec fn is_last_greatest(s: Seq<Scalar>, i: int) -> bool {
    &&& 0 <= i < s.len()
    &&& forall|j: int| 0 <= j < s.len() ==> (#[trigger] s[j]).rank() <= s[i].rank()
    &&& forall|j: int| i < j < s.len() ==> (#[trigger] s[j]).rank() < s[i].rank()
}

/// The place of the greatest score, the last one among equals.
pub open spec fn last_greatest(s: Seq<Scalar>) -> int
    decreases s.len(),
{
    if s.len() <= 1 {
        0
    } else {
        let w = last_greatest(s.drop_last());
        if s.last().rank() >= s[w].rank() {
            s.len() - 1
        } else {
            w
        }
    }
}

/// `last_greatest` is the one place that `is_last_greatest` holds of.
pub proof fn lemma_last_greatest(s: Seq<Scalar>)
    requires
        s.len() > 0,
    ensures
        is_last_greatest(s, last_greatest(s)),
        forall|i: int| is_last_greatest(s, i) ==> i == last_greatest(s),
    decreases s.len(),
{
    if s.len() > 1 {
        let front = s.drop_last();
        lemma_last_greatest(front);
        let w = last_greatest(front);
        let g = last_greatest(s);
        assert forall|j: int| 0 <= j < s.len() implies (#[trigger] s[j]).rank() <= s[g].rank() by {
            if j < front.len() {
                assert(front[j].rank() <= front[w].rank());
            }
        }
        assert forall|j: int| g < j < s.len() implies (#[trigger] s[j]).rank() < s[g].rank() by {
            if j < front.len() {
                assert(front[j].rank() < front[w].rank());
            }
        }
    }
    let g = last_greatest(s);
    assert forall|i: int| is_last_greatest(s, i) implies i == g by {
        if i < g {
            assert(s[g].rank() < s[i].rank());
            assert(s[i].rank() <= s[g].rank());
        } else if g < i {
            assert(s[i].rank() < s[g].rank());
            assert(s[g].rank() <= s[i].rank());
        }
    }
}

/// What the greedy rule answers: the candidate with the greatest score, the
/// last one among equals. It fails when there is no candidate, when the
/// scores are not one for each candidate, and when one of them is no number.
pub open spec fn intensified(candidates: Seq<usize>, scores: Seq<Scalar>) -> Result<usize, AcsError> {
    if candidates.len() == 0 {
        Err(AcsError::NoCandidateCities)
    } else if scores.len() != candidates.len() {
        Err(AcsError::UnexpectedEvent)
    } else if !all_numbers(scores) {
        Err(AcsError::InvalidCost)
    } else {
        Ok(candidates[last_greatest(scores)])
    }
}

/// Whether every entry of `s` is a number.
pub fn check_numbers(s: &Vec<Scalar>) -> (r: bool)
    ensures
        r == all_numbers(s@),
{
    let mut i: usize = 0;
    while i < s.len()
        invariant
            i <= s@.len(),
            forall|k: int| 0 <= k < i ==> !(#[trigger] s@[k]).nan(),
        decreases s@.len() - i,
    {
        if s[i].is_nan() {
            return false;
        }
        i = i + 1;
    }
    true
}

/// The greedy rule: of the candidates, the one whose score is greatest.
pub fn select_intensified(candidates: &Vec<usize>, scores: &Vec<Scalar>) -> (r: Result<usize, AcsError>)
    ensures
        r == intensified(candidates@, scores@),
        r matches Ok(city) ==> exists|i: int|
            is_last_greatest(scores@, i) && city == #[trigger] candidates@[i],
{
    if candidates.len() == 0 {
        return Err(AcsError::NoCandidateCities);
    }
    if scores.len() != candidates.len() {
        return Err(AcsError::UnexpectedEvent);
    }
    if !check_numbers(scores) {
        return Err(AcsError::InvalidCost);
    }
    let mut best: usize = 0;
    let mut i: usize = 1;
    assert(scores@.take(1).len() == 1);
    while i < scores.len()
        invariant
            1 <= i <= scores@.len(),
            all_numbers(scores@),
            best == last_greatest(scores@.take(i as int)),
            0 <= best < i,
        decreases scores@.len() - i,
    {
        proof {
            assert(scores@.take(i + 1).drop_last() =~= scores@.take(i as int));
            assert(scores@.take(i + 1).last() == scores@[i as int]);
            assert(scores@.take(i + 1)[best as int] == scores@[best as int]);
        }
        let behind: Result<bool, AcsError> = scores[i].below(scores[best]);
        match behind {
            Ok(true) => {},
            _ => {
                best = i;
            },
        }
        i = i + 1;
    }
    proof {
        assert(scores@.take(scores@.len() as int) =~= scores@);
        lemma_last_greatest(scores@);
    }
    Ok(candidates[best])
}

/// Whether the wheel stops at place `i`: the running sum at `i` is the first
/// to reach the draw, or no running sum reaches it and `i` is the last place.
pub open spec fn is_landing(cumulative: Seq<Scalar>, draw: Scalar, i: int) -> bool {
    &&& 0 <= i < cumulative.len()
    &&& forall|j: int| 0 <= j < i ==> (#[trigger] cumulative[j]).rank() < draw.rank()
    &&& (i < cumulative.len() - 1 ==> cumulative[i].rank() >= draw.rank())
}

/// The place at or after `k` where the wheel stops.
pub open spec fn landing_from(cumulative: Seq<Scalar>, draw: Scalar, k: int) -> int
    decreases cumulative.len() - k,
{
    if k >= cumulative.len() - 1 {
        cumulative.len() - 1
    } else if cumulative[k].rank() >= draw.rank() {
        k
    } else {
        landing_from(cumulative, draw, k + 1)
    }
}

/// The place where the wheel stops.
pub open spec fn landing(cumulative: Seq<Scalar>, draw: Scalar) -> int {
    landing_from(cumulative, draw, 0)
}

proof fn lemma_landing_from(cumulative: Seq<Scalar>, draw: Scalar, k: int)
    requires
        0 <= k < cumulative.len(),
        forall|j: int| 0 <= j < k ==> (#[trigger] cumulative[j]).rank() < draw.rank(),
    ensures
        is_landing(cumulative, draw, landing_from(cumulative, draw, k)),
    decreases cumulative.len() - k,
{
    if k < cumulative.len() - 1 && cumulative[k].rank() < draw.rank() {
        lemma_landing_from(cumulative, draw, k + 1);
    }
}

/// `landing` is the one place that `is_landing` holds of.
pub proof fn lemma_landing(cumulative: Seq<Scalar>, draw: Scalar)
    requires
        cumulative.len() > 0,
    ensures
        is_landing(cumulative, draw, landing(cumulative, draw)),
        forall|i: int| is_landing(cumulative, draw, i) ==> i == landing(cumulative, draw),
{
    lemma_landing_from(cumulative, draw, 0);
    let g = landing(cumulative, draw);
    assert forall|i: int| is_landing(cumulative, draw, i) implies i == g by {
        if i < g {
            assert(cumulative[i].rank() < draw.rank());
        } else if g < i {
            assert(cumulative[g].rank() < draw.rank());
        }
    }
}

/// Whether a sum of weights can be divided by: it is a finite number other
/// than zero.
pub open spec fn divisible(total: Scalar) -> bool {
    total.finite() && !total.zero()
}

/// What the roulette rule answers: the candidate at the place where the
/// wheel stops. It fails when there is no candidate, when the running sums
/// are not one for each candidate, when the weights sum to zero or to no
/// finite number, and when the draw or a running sum is no number.
pub open spec fn diversified(
    candidates: Seq<usize>,
    total: Scalar,
    cumulative: Seq<Scalar>,
    draw: Scalar,
) -> Result<usize, AcsError> {
    if candidates.len() == 0 {
        Err(AcsError::NoCandidateCities)
    } else if cumulative.len() != candidates.len() {
        Err(AcsError::UnexpectedEvent)
    } else if !divisible(total) {
        Err(AcsError::DegenerateDistribution)
    } else if draw.nan() || !all_numbers(cumulative) {
        Err(AcsError::InvalidCost)
    } else {
        Ok(candidates[landing(cumulative, draw)])
    }
}

/// The roulette rule. `cumulative[i]` is the share of the first `i + 1`
/// candidates in `total`, the sum of all weights, and `draw` is a number
/// drawn from the unit interval.
pub fn select_diversified(
    candidates: &Vec<usize>,
    total: Scalar,
    cumulative: &Vec<Scalar>,
    draw: Scalar,
) -> (r: Result<usize, AcsError>)
    ensures
        r == diversified(candidates@, total, cumulative@, draw),
        r matches Ok(city) ==> exists|i: int|
            is_landing(cumulative@, draw, i) && city == #[trigger] candidates@[i],
{
    if candidates.len() == 0 {
        return Err(AcsError::NoCandidateCities);
    }
    if cumulative.len() != candidates.len() {
        return Err(AcsError::UnexpectedEvent);
    }
    if !total.is_finite() || total.is_zero() {
        return Err(AcsError::DegenerateDistribution);
    }
    if draw.is_nan() || !check_numbers(cumulative) {
        return Err(AcsError::InvalidCost);
    }
    let last: usize = cumulative.len() - 1;
    let mut i: usize = 0;
    let mut reached: bool = false;
    while i < last && !reached
        invariant
            last == cumulative@.len() - 1,
            i <= last,
            !draw.nan(),
            all_numbers(cumulative@),
            landing(cumulative@, draw) == landing_from(cumulative@, draw, i as int),
            reached ==> i < last && cumulative@[i as int].rank() >= draw.rank(),
        decreases last - i + if reached { 0int } else { 1int },
    {
        let short: Result<bool, AcsError> = cumulative[i].below(draw);
        match short {
            Ok(true) => {
                i = i + 1;
            },
            _ => {
                reached = true;
            },
        }
    }
    proof {
        assert(landing_from(cumulative@, draw, i as int) == i);
        lemma_landing(cumulative@, draw);
    }
    Ok(candidates[i])
}

} // verus!
