use vstd::prelude::*;
use crate::error::AcsError;
use crate::matrix::{fits, square};
use crate::pheromone::{
    deposited, lemma_deposited_levels, lemma_reinforced, lemma_reinforced_levels, levels_only,
    reinforced, zero_diagonal,
};
use crate::scalar::Scalar;
use crate::state::{
    all_taken, answer, ants_left, best_after, failure, next, records_fit, replay, steps_left,
    ActionView, Event, Phase, State,
};
use crate::tour::{
    is_path, is_tour, landing, last_greatest, lemma_candidates_len, lemma_landing,
    lemma_last_greatest, lemma_path_extends, within,
};

verus! {

/// A table that can be allocated has fewer rows than a machine word counts.
pub proof fn lemma_fits_bounded(n: nat)
    requires
        fits(n),
    ensures
        n <= usize::MAX,
{
    assert(n <= n * n * 8) by (nonlinear_arith);
}

/// Whatever the events, a colony stays well formed: every path under way
/// begins in the initial city and enters no city twice, every tour that was
/// finished or recorded as the best is such a path through all the cities,
/// and the diagonal of the field carries nothing.
pub proof fn lemma_next_wf(pre: State, event: Event)
    requires
        pre.wf(),
        failure(pre, event).is_none(),
    ensures
        next(pre, event).wf(),
{
    lemma_fits_bounded(pre.n);
    let post = next(pre, event);
    match event {
        Event::Start => {
            if pre.size != 0 {
                assert(post.visited.len() == 1);
                assert(post.visited[0] == pre.initial);
                assert(is_path(post.visited, post.n, post.initial));
            }
            assert(post.wf());
        },
        Event::Draw(q) => {
            assert(post.wf());
        },
        Event::Scores(scores) => {
            let i = last_greatest(scores@);
            lemma_last_greatest(scores@);
            lemma_path_extends(pre.visited, pre.n, pre.initial, i);
            assert(post.wf());
        },
        Event::Wheel { total, cumulative, draw } => {
            let i = landing(cumulative@, draw);
            lemma_landing(cumulative@, draw);
            lemma_path_extends(pre.visited, pre.n, pre.initial, i);
            assert(post.wf());
        },
        Event::Deposited(level) => {
            let len = pre.visited.len() as int;
            let from = pre.visited[len - 2] as int;
            let to = pre.visited[len - 1] as int;
            assert(from != to);
            assert(from < pre.n && to < pre.n);
            lemma_deposit_keeps_shape(pre.pheromones, pre.n, from, to, level);
            lemma_deposited_levels(pre.pheromones, from, to, level);
            if pre.visited.len() != pre.n {
                lemma_candidates_len(pre.visited, pre.n);
            }
            assert(post.wf());
        },
        Event::Cost(cost) => {
            assert(post.solutions.len() == pre.solutions.len() + 1);
            assert forall|i: int| 0 <= i < post.solutions.len() implies {
                &&& is_tour((#[trigger] post.solutions[i]).0, post.n, post.initial)
                &&& !post.solutions[i].1.nan()
                &&& post.best.len() > 0
                &&& post.best_cost.rank() <= post.solutions[i].1.rank()
            } by {
                if i < pre.solutions.len() {
                    assert(post.solutions[i] == pre.solutions[i]);
                }
            }
            assert(records_fit(
                post.n,
                post.initial,
                post.size,
                post.best,
                post.best_cost,
                post.solutions,
            ));
            if post.solutions.len() < pre.size {
                assert(post.visited.len() == 1);
                assert(post.visited[0] == pre.initial);
                assert(is_path(post.visited, post.n, post.initial));
            }
            assert(post.wf());
        },
        Event::Reinforced(levels) => {
            lemma_reinforced(
                pre.pheromones,
                pre.best,
                levels@,
                (pre.best.len() - 1) as nat,
            );
            lemma_reinforced_diagonal(pre.pheromones, pre.best, levels@, (pre.best.len() - 1) as nat);
            lemma_reinforced_levels(pre.pheromones, pre.best, levels@, (pre.best.len() - 1) as nat);
            assert(post.wf());
        },
    }
}

/// A deposit keeps the field square and its diagonal empty.
proof fn lemma_deposit_keeps_shape(tau: Seq<Seq<u64>>, n: nat, from: int, to: int, level: Scalar)
    requires
        square(tau, n),
        zero_diagonal(tau),
        0 <= from < n,
        0 <= to < n,
    ensures
        square(deposited(tau, from, to, level), n),
        zero_diagonal(deposited(tau, from, to, level)),
{
    let after = deposited(tau, from, to, level);
    assert forall|i: int| 0 <= i < n implies (#[trigger] after[i]).len() == n by {
        assert(tau[i].len() == n);
    }
    assert forall|i: int| 0 <= i < after.len() implies (#[trigger] after[i])[i] == 0 by {
        assert(tau[i][i] == 0);
    }
}

/// New levels on the steps of a tour keep the field square and its diagonal
/// empty.
proof fn lemma_reinforced_diagonal(tau: Seq<Seq<u64>>, tour: Seq<usize>, levels: Seq<Scalar>, k: nat)
    requires
        square(tau, tau.len()),
        zero_diagonal(tau),
        within(tour, tau.len()),
        k <= tour.len() - 1,
    ensures
        square(reinforced(tau, tour, levels, k), tau.len()),
        zero_diagonal(reinforced(tau, tour, levels, k)),
    decreases k,
{
    if k > 0 {
        lemma_reinforced_diagonal(tau, tour, levels, (k - 1) as nat);
        lemma_deposit_keeps_shape(
            reinforced(tau, tour, levels, (k - 1) as nat),
            tau.len(),
            tour[k - 1] as int,
            tour[k as int] as int,
            levels[k - 1],
        );
    }
}

/// The best tour never gets worse: once there is one there always is one,
/// its cost never rises, and it is replaced only by a tour of strictly
/// lower cost.
pub proof fn lemma_best_never_worsens(pre: State, event: Event)
    requires
        pre.wf(),
        failure(pre, event).is_none(),
    ensures
        pre.best.len() > 0 ==> next(pre, event).best.len() > 0,
        pre.best.len() > 0 ==> next(pre, event).best_cost.rank() <= pre.best_cost.rank(),
        pre.best.len() > 0 && next(pre, event).best != pre.best ==> next(pre, event).best_cost.rank()
            < pre.best_cost.rank(),
        next(pre, event).best != pre.best ==> event is Cost && next(pre, event).best == pre.visited,
{
    match event {
        Event::Cost(cost) => {
            assert(pre.visited.len() > 0);
        },
        _ => {},
    }
}

/// Taking one more event after a run of events is taking the run with that
/// event at its end.
pub proof fn lemma_replay_push(pre: State, events: Seq<Event>, event: Event)
    ensures
        replay(pre, events.push(event)) == if failure(replay(pre, events), event).is_none() {
            next(replay(pre, events), event)
        } else {
            replay(pre, events)
        },
{
    assert(events.push(event).drop_last() =~= events);
    assert(events.push(event).last() == event);
}

/// Over any run of events, through as many generations as they make up, the
/// colony stays well formed, a best tour once found is never lost, and its
/// cost never rises.
pub proof fn lemma_replay(pre: State, events: Seq<Event>)
    requires
        pre.wf(),
    ensures
        replay(pre, events).wf(),
        pre.best.len() > 0 ==> replay(pre, events).best.len() > 0,
        pre.best.len() > 0 ==> replay(pre, events).best_cost.rank() <= pre.best_cost.rank(),
    decreases events.len(),
{
    if events.len() > 0 {
        lemma_replay(pre, events.drop_last());
        let mid = replay(pre, events.drop_last());
        if failure(mid, events.last()).is_none() {
            lemma_next_wf(mid, events.last());
            lemma_best_never_worsens(mid, events.last());
        }
    }
}

/// A run of events that were all taken, and one more event that is taken
/// after them, make a run of events that were all taken.
pub proof fn lemma_all_taken_push(pre: State, events: Seq<Event>, event: Event)
    requires
        all_taken(pre, events),
        failure(replay(pre, events), event).is_none(),
    ensures
        all_taken(pre, events.push(event)),
        replay(pre, events.push(event)) == next(replay(pre, events), event),
{
    lemma_replay_push(pre, events, event);
    let longer = events.push(event);
    assert forall|k: int| 0 <= k < longer.len() implies failure(
        replay(pre, #[trigger] longer.take(k)),
        longer[k],
    ).is_none() by {
        if k < events.len() {
            assert(longer.take(k) =~= events.take(k));
            assert(longer[k] == events[k]);
            assert(failure(replay(pre, events.take(k)), events[k]).is_none());
        } else {
            assert(longer.take(k) =~= events);
        }
    }
}

/// Every event that is taken brings the generation nearer to its end: an
/// ant finishes, or the ant under way has fewer steps left. The generation
/// is over exactly when the answer is `Finished`, and that answer holds the
/// tour of every ant.
pub proof fn lemma_progress(pre: State, event: Event)
    requires
        pre.wf(),
        failure(pre, event).is_none(),
        pre.phase != Phase::Idle,
    ensures
        !(answer(pre, event) is Finished) ==> {
            &&& 0 <= ants_left(next(pre, event)) <= ants_left(pre)
            &&& 0 <= steps_left(next(pre, event))
            &&& ants_left(next(pre, event)) == ants_left(pre) ==> steps_left(next(pre, event))
                < steps_left(pre)
        },
        next(pre, event).phase == Phase::Idle <==> answer(pre, event) is Finished,
        answer(pre, event) matches ActionView::Finished { solutions } ==> solutions == pre.solutions
            && pre.phase == Phase::Reinforcing,
{
    lemma_next_wf(pre, event);
    match event {
        Event::Deposited(level) => {
            if pre.visited.len() != pre.n {
                lemma_fits_bounded(pre.n);
                lemma_candidates_len(pre.visited, pre.n);
            }
        },
        _ => {},
    }
}

/// An ant that is to choose has a city left to choose from, so no event is
/// refused for want of a candidate.
pub proof fn lemma_candidates_remain(pre: State, event: Event)
    requires
        pre.wf(),
    ensures
        pre.phase is Selecting || pre.phase is Scoring ==> pre.candidates().len() == pre.n
            - pre.visited.len() && pre.candidates().len() > 0,
        failure(pre, event) != Some(AcsError::NoCandidateCities),
{
    lemma_fits_bounded(pre.n);
    if pre.phase is Selecting || pre.phase is Scoring {
        lemma_candidates_len(pre.visited, pre.n);
    }
}

/// Once every ant has finished, the new levels of the best tour are taken
/// whenever there is one for each of its steps and each is a level: the best
/// tour is there and is a tour of this colony.
pub proof fn lemma_reinforcement_is_taken(pre: State, levels: Vec<Scalar>)
    requires
        pre.wf(),
        pre.phase == Phase::Reinforcing,
    ensures
        failure(pre, Event::Reinforced(levels)) == if levels@.len() != pre.n - 1 {
            Some(AcsError::UnexpectedEvent)
        } else if !levels_only(levels@) {
            Some(AcsError::InvalidCost)
        } else {
            None
        },
{
}

/// Whether the tour at place `a` is the cheapest of `solutions`, and the
/// first such tour where several are equally cheap.
pub open spec fn is_first_cheapest(solutions: Seq<(Seq<usize>, Scalar)>, a: int) -> bool {
    &&& 0 <= a < solutions.len()
    &&& forall|b: int|
        0 <= b < solutions.len() ==> solutions[a].1.rank() <= (#[trigger] solutions[b]).1.rank()
    &&& forall|b: int| 0 <= b < a ==> solutions[a].1.rank() < (#[trigger] solutions[b]).1.rank()
}

/// Whether some tour of `solutions` is strictly cheaper than `cost`.
pub open spec fn some_cheaper(solutions: Seq<(Seq<usize>, Scalar)>, cost: Scalar) -> bool {
    exists|b: int| 0 <= b < solutions.len() && (#[trigger] solutions[b]).1.rank() < cost.rank()
}

/// The best tour after a generation. Where there was none before, or where
/// a tour of the generation is strictly cheaper than it, the best tour is
/// the first cheapest tour of the generation. Else it is the one that was
/// there before, with the cost it had. Its cost is the least of the old
/// cost and the costs of the generation.
pub proof fn lemma_best_after(best: Seq<usize>, cost: Scalar, solutions: Seq<(Seq<usize>, Scalar)>)
    requires
        forall|i: int| 0 <= i < solutions.len() ==> (#[trigger] solutions[i]).0.len() > 0,
    ensures
        solutions.len() > 0 && (best.len() == 0 || some_cheaper(solutions, cost)) ==> exists|a: int|
            is_first_cheapest(solutions, a) && best_after(best, cost, solutions)
                == #[trigger] solutions[a],
        !(solutions.len() > 0 && (best.len() == 0 || some_cheaper(solutions, cost))) ==> best_after(
            best,
            cost,
            solutions,
        ) == (best, cost),
        forall|b: int|
            0 <= b < solutions.len() ==> best_after(best, cost, solutions).1.rank() <= (
            #[trigger] solutions[b]).1.rank(),
        best.len() > 0 ==> best_after(best, cost, solutions).1.rank() <= cost.rank(),
        best.len() > 0 || solutions.len() > 0 ==> best_after(best, cost, solutions).0.len() > 0,
    decreases solutions.len(),
{
    if solutions.len() > 0 {
        let front = solutions.drop_last();
        let last = solutions.last();
        let now = best_after(best, cost, solutions);
        let before = best_after(best, cost, front);
        lemma_best_after(best, cost, front);
        assert forall|b: int| 0 <= b < front.len() implies front[b] == solutions[b] by {}
        assert(solutions[solutions.len() - 1] == last);
        assert forall|b: int| 0 <= b < solutions.len() implies now.1.rank() <= (
        #[trigger] solutions[b]).1.rank() by {
            if b < front.len() {
                assert(before.1.rank() <= front[b].1.rank());
            }
        }
        let replaced_before = front.len() > 0 && (best.len() == 0 || some_cheaper(front, cost));
        if replaced_before {
            let a = choose|a: int| is_first_cheapest(front, a) && before == #[trigger] front[a];
            assert(before == solutions[a]);
            if best.len() > 0 {
                let d = choose|d: int| 0 <= d < front.len() && (#[trigger] front[d]).1.rank() < cost.rank();
                assert(solutions[d].1.rank() < cost.rank());
                assert(some_cheaper(solutions, cost));
            }
            if last.1.rank() < before.1.rank() {
                let z = solutions.len() - 1;
                assert forall|b: int| 0 <= b < z implies solutions[z].1.rank() < (
                #[trigger] solutions[b]).1.rank() by {
                    assert(front[a].1.rank() <= front[b].1.rank());
                }
                assert(is_first_cheapest(solutions, z));
                assert(now == solutions[z]);
            } else {
                assert forall|b: int| 0 <= b < a implies solutions[a].1.rank() < (
                #[trigger] solutions[b]).1.rank() by {
                    assert(front[a].1.rank() < front[b].1.rank());
                }
                assert forall|b: int| 0 <= b < solutions.len() implies solutions[a].1.rank() <= (
                #[trigger] solutions[b]).1.rank() by {
                    if b < front.len() {
                        assert(front[a].1.rank() <= front[b].1.rank());
                    }
                }
                assert(is_first_cheapest(solutions, a));
                assert(now == solutions[a]);
            }
        } else {
            assert(before == (best, cost));
            let z = solutions.len() - 1;
            if best.len() == 0 {
                assert(front.len() == 0);
                assert(now == solutions[z]);
                assert(is_first_cheapest(solutions, z));
            } else if last.1.rank() < cost.rank() {
                assert(some_cheaper(solutions, cost));
                assert forall|b: int| 0 <= b < z implies solutions[z].1.rank() < (
                #[trigger] solutions[b]).1.rank() by {
                    if front[b].1.rank() < cost.rank() {
                        assert(some_cheaper(front, cost));
                    }
                }
                assert(now == solutions[z]);
                assert(is_first_cheapest(solutions, z));
            } else {
                assert(now == (best, cost));
                if some_cheaper(solutions, cost) {
                    let d = choose|d: int|
                        0 <= d < solutions.len() && (#[trigger] solutions[d]).1.rank() < cost.rank();
                    assert(d < front.len());
                    assert(front[d].1.rank() < cost.rank());
                    assert(some_cheaper(front, cost));
                }
            }
        }
    }
}

} // verus!
