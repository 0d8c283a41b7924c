use vstd::prelude::*;
use crate::error::AcsError;
use crate::laws::{lemma_all_taken_push, lemma_next_wf, lemma_progress};
use crate::scalar::Scalar;
use crate::state::{
    all_taken, answer, ants_left, best_after, choices, draws, events_of_generation, failure, next,
    replay, rounds_left, steps_left, tours_view, Action, ActionView, Event, Phase, State,
};
use crate::tour::is_tour;

verus! {

/// Whether `event` is what `serve` answered when it was handed the action
/// that the colony in the state `before` had asked for on taking `previous`.
pub open spec fn served_by<F: FnMut(&Action) -> Event>(
    serve: F,
    before: State,
    previous: Event,
    event: Event,
) -> bool {
    exists|asked: Action| #[trigger]
        asked@ == answer(before, previous) && call_ensures(serve, (&asked,), event)
}

/// Every event after the first is what `serve` answered to the action that
/// the colony had asked for on taking the event before it.
#[verifier::opaque]
pub open spec fn all_served<F: FnMut(&Action) -> Event>(pre: State, events: Seq<Event>, serve: F) -> bool {
    forall|j: int|
        0 <= j < events.len() - 1 ==> served_by(
            serve,
            replay(pre, #[trigger] events.take(j)),
            events[j],
            events[j + 1],
        )
}

/// A run of no events at all was served.
pub(crate) proof fn lemma_none_served<F: FnMut(&Action) -> Event>(pre: State, serve: F)
    ensures
        all_served(pre, Seq::empty(), serve),
        all_served(pre, Seq::empty().push(Event::Start), serve),
{
    reveal(all_served);
}

/// A run of events that were all served, and one more that `serve` answered
/// to the last action, make a run of events that were all served.
pub(crate) proof fn lemma_all_served_push<F: FnMut(&Action) -> Event>(
    pre: State,
    events: Seq<Event>,
    now: State,
    serve: F,
    asked: Action,
    event: Event,
)
    requires
        under_way(pre, events, now, asked@),
        all_served(pre, events, serve),
        call_ensures(serve, (&asked,), event),
    ensures
        all_served(pre, events.push(event), serve),
{
    reveal(all_served);
    assert(events.len() >= 1 && asked@ == answer(
        replay(pre, events.drop_last()),
        events.last(),
    )) by {
        reveal(under_way);
    }
    let longer = events.push(event);
    assert forall|j: int| 0 <= j < longer.len() - 1 implies served_by(
        serve,
        replay(pre, #[trigger] longer.take(j)),
        longer[j],
        longer[j + 1],
    ) by {
        if j < events.len() - 1 {
            assert(longer.take(j) =~= events.take(j));
            assert(longer[j] == events[j] && longer[j + 1] == events[j + 1]);
            assert(served_by(serve, replay(pre, events.take(j)), events[j], events[j + 1]));
        } else {
            assert(longer.take(j) =~= events.drop_last());
            assert(longer[j] == events.last() && longer[j + 1] == event);
        }
    }
}

/// No event but the last ends a generation.
pub open spec fn one_generation(events: Seq<Event>) -> bool {
    forall|k: int| 0 <= k < events.len() - 1 ==> !(#[trigger] events[k] is Reinforced)
}

/// What `run` owes. The colony has taken `events` and stands where they
/// have left it. They are no more than one generation: the first is
/// `Start`, each of the others is what `serve` answered to the action
/// asked for before it, none of them was refused, and none but the last
/// ends a generation. There is no event at all exactly when `Start` itself
/// is refused, and the failure is then that of `Start`.
///
/// Tours come back exactly when the last event ended the generation, and
/// they are the tours that the colony held then. The generation has then
/// taken one draw and one choice for each ant and each city but the first,
/// and as many events in all as a generation has. A failure comes back
/// exactly when `serve` answered the last action asked for with an event
/// that the colony refuses, and it is the failure of that event.
#[verifier::opaque]
pub open spec fn generation_went<F: FnMut(&Action) -> Event>(
    pre: State,
    events: Seq<Event>,
    serve: F,
    post: State,
    r: Result<Vec<(Vec<usize>, Scalar)>, AcsError>,
) -> bool {
    &&& all_taken(pre, events)
    &&& all_served(pre, events, serve)
    &&& one_generation(events)
    &&& post == replay(pre, events)
    &&& events.len() > 0 ==> events[0] == Event::Start
    &&& events.len() == 0 <==> failure(pre, Event::Start) is Some
    &&& match r {
        Ok(solutions) => {
            &&& events.len() == events_of_generation(pre.size, pre.n)
            &&& draws(events) == pre.size * (pre.n - 1)
            &&& choices(events) == pre.size * (pre.n - 1)
            &&& events.last() is Reinforced
            &&& tours_view(solutions@) == replay(pre, events.drop_last()).solutions
        },
        Err(e) => if events.len() == 0 {
            failure(pre, Event::Start) == Some(e)
        } else {
            &&& !(events.last() is Reinforced)
            &&& exists|refused: Event| #[trigger]
                served_by(serve, replay(pre, events.drop_last()), events.last(), refused)
                    && failure(post, refused) == Some(e)
        },
    }
}

/// How many events the ant under way has had taken since it set out.
spec fn taken_in_ant(now: State) -> int {
    match now.phase {
        Phase::Idle => 0,
        Phase::Selecting => 3 * (now.visited.len() - 1),
        Phase::Scoring { exploit } => 3 * (now.visited.len() - 1) + 1,
        Phase::Depositing => 3 * (now.visited.len() - 2) + 2,
        Phase::Measuring => 3 * (now.n - 1),
        Phase::Reinforcing => 0,
    }
}

/// How many draws the ant under way has had since it set out.
spec fn draws_in_ant(now: State) -> int {
    match now.phase {
        Phase::Idle => 0,
        Phase::Selecting => now.visited.len() - 1,
        Phase::Scoring { exploit } => now.visited.len() as int,
        Phase::Depositing => now.visited.len() - 1,
        Phase::Measuring => now.n - 1,
        Phase::Reinforcing => 0,
    }
}

/// How many choices the ant under way has made since it set out.
spec fn choices_in_ant(now: State) -> int {
    match now.phase {
        Phase::Idle => 0,
        Phase::Selecting => now.visited.len() - 1,
        Phase::Scoring { exploit } => now.visited.len() - 1,
        Phase::Depositing => now.visited.len() - 1,
        Phase::Measuring => now.n - 1,
        Phase::Reinforcing => 0,
    }
}

/// The events taken so far are those of the ants that have finished and
/// those of the ant under way.
spec fn counts_fit(now: State, events: Seq<Event>) -> bool {
    &&& events.len() == 1 + now.solutions.len() * (3 * (now.n - 1) + 1) + taken_in_ant(now)
    &&& draws(events) == now.solutions.len() * (now.n - 1) + draws_in_ant(now)
    &&& choices(events) == now.solutions.len() * (now.n - 1) + choices_in_ant(now)
}

proof fn lemma_one_more(a: int, x: int)
    ensures
        (a + 1) * x == a * x + x,
        0 * x == 0,
{
    assert((a + 1) * x == a * x + x) by (nonlinear_arith);
}

/// The counts after the start of a generation.
proof fn lemma_counts_begin(origin: State)
    requires
        origin.wf(),
        failure(origin, Event::Start).is_none(),
    ensures
        counts_fit(next(origin, Event::Start), Seq::<Event>::empty().push(Event::Start)),
{
    let first = Seq::<Event>::empty().push(Event::Start);
    assert(first.drop_last() =~= Seq::<Event>::empty());
    assert(first.last() == Event::Start);
    assert(draws(first.drop_last()) == 0);
    assert(choices(first.drop_last()) == 0);
    assert(origin.solutions.len() == 0);
    lemma_one_more(0, 3 * (origin.n - 1) + 1);
    lemma_one_more(0, origin.n - 1);
}

/// The counts after one more event that does not end the generation.
proof fn lemma_counts_follow(pre: State, events: Seq<Event>, event: Event)
    requires
        pre.wf(),
        pre.phase != Phase::Idle,
        failure(pre, event).is_none(),
        !(event is Reinforced),
        counts_fit(pre, events),
    ensures
        counts_fit(next(pre, event), events.push(event)),
{
    let longer = events.push(event);
    assert(longer.drop_last() =~= events);
    assert(longer.last() == event);
    let done = pre.solutions.len() as int;
    lemma_one_more(done, 3 * (pre.n - 1) + 1);
    lemma_one_more(done, pre.n - 1);
    match event {
        Event::Cost(cost) => {
            assert(next(pre, event).solutions.len() == done + 1);
        },
        _ => {},
    }
}

/// The counts after the event that ends the generation.
proof fn lemma_counts_at_the_end(pre: State, events: Seq<Event>, event: Event)
    requires
        pre.wf(),
        pre.phase == Phase::Reinforcing,
        event is Reinforced,
        counts_fit(pre, events),
    ensures
        events.push(event).len() == events_of_generation(pre.size, pre.n),
        draws(events.push(event)) == pre.size * (pre.n - 1),
        choices(events.push(event)) == pre.size * (pre.n - 1),
{
    let longer = events.push(event);
    assert(longer.drop_last() =~= events);
    assert(longer.last() == event);
}

/// Whether the colony takes every answer of `serve`: whenever it has
/// begun a generation and has taken what `serve` answered so far, it does
/// not refuse what `serve` answers next.
pub open spec fn never_refused<F: FnMut(&Action) -> Event>(pre: State, serve: F) -> bool {
    forall|events: Seq<Event>, answered: Event|
        {
            &&& events.len() > 0
            &&& events[0] == Event::Start
            &&& all_taken(pre, events)
            &&& all_served(pre, events, serve)
            &&& one_generation(events)
            &&& !(events.last() is Reinforced)
            &&& #[trigger] served_by(serve, replay(pre, events.drop_last()), events.last(), answered)
        } ==> failure(replay(pre, events), answered) is None
}

/// What holds while `run` is under way: the colony has taken `events`,
/// which began the generation, and `action` is what it has asked for last.
#[verifier::opaque]
pub(crate) closed spec fn under_way(origin: State, events: Seq<Event>, now: State, action: ActionView) -> bool {
    &&& origin.wf()
    &&& now.wf()
    &&& now == replay(origin, events)
    &&& all_taken(origin, events)
    &&& one_generation(events)
    &&& events.len() >= 1
    &&& events[0] == Event::Start
    &&& failure(origin, Event::Start).is_none()
    &&& origin.solutions.len() == 0
    &&& now.n == origin.n
    &&& now.size == origin.size
    &&& now.initial == origin.initial
    &&& action == answer(replay(origin, events.drop_last()), events.last())
    &&& !(action is Finished) ==> {
        &&& now.phase != Phase::Idle
        &&& !(events.last() is Reinforced)
        &&& (now.best, now.best_cost) == best_after(origin.best, origin.best_cost, now.solutions)
        &&& counts_fit(now, events)
    }
    &&& action matches ActionView::Finished { solutions } ==> {
        &&& now.phase == Phase::Idle
        &&& now.best.len() > 0
        &&& events.len() == events_of_generation(origin.size, origin.n)
        &&& draws(events) == origin.size * (origin.n - 1)
        &&& choices(events) == origin.size * (origin.n - 1)
        &&& events.last() is Reinforced
        &&& solutions == replay(origin, events.drop_last()).solutions
        &&& solutions.len() == now.size
        &&& (now.best, now.best_cost) == best_after(origin.best, origin.best_cost, solutions)
        &&& forall|i: int|
            0 <= i < solutions.len() ==> {
                &&& is_tour((#[trigger] solutions[i]).0, now.n, now.initial)
                &&& !solutions[i].1.nan()
                &&& now.best_cost.rank() <= solutions[i].1.rank()
            }
    }
}

/// While `run` is under way the colony is well formed.
pub(crate) proof fn lemma_under_way(origin: State, events: Seq<Event>, now: State, action: ActionView)
    requires
        under_way(origin, events, now, action),
    ensures
        now.wf(),
        failure(origin, Event::Start).is_none(),
{
    reveal(under_way);
}

/// What `under_way` says of a generation that is not over.
proof fn lemma_under_way_so_far(origin: State, events: Seq<Event>, now: State, action: ActionView)
    requires
        under_way(origin, events, now, action),
        !(action is Finished),
    ensures
        so_far(origin, events, now),
        now.wf(),
        now.phase != Phase::Idle,
{
    reveal(under_way);
}

/// A generation that cannot begin has gone nowhere.
pub(crate) proof fn lemma_refused_at_once<F: FnMut(&Action) -> Event>(origin: State, serve: F, e: AcsError)
    requires
        failure(origin, Event::Start) == Some(e),
    ensures
        generation_went(origin, Seq::empty(), serve, origin, Err(e)),
{
    reveal(generation_went);
    reveal(all_served);
    let events = Seq::<Event>::empty();
    assert(replay(origin, events) == origin);
}

/// A generation that has begun is under way.
pub(crate) proof fn lemma_under_way_start(origin: State)
    requires
        origin.wf(),
        failure(origin, Event::Start).is_none(),
    ensures
        under_way(
            origin,
            Seq::<Event>::empty().push(Event::Start),
            next(origin, Event::Start),
            answer(origin, Event::Start),
        ),
{
    reveal(under_way);
    let none = Seq::<Event>::empty();
    assert(replay(origin, none) == origin);
    assert(none.push(Event::Start).drop_last() =~= none);
    lemma_all_taken_push(origin, none, Event::Start);
    lemma_next_wf(origin, Event::Start);
    assert(origin.solutions =~= Seq::empty());
    lemma_counts_begin(origin);
}

/// What the answer `Finished` tells: the event was the last of its
/// generation, the colony is idle, its best tour is the one it had, and the
/// tours handed out are those of the generation.
proof fn lemma_finished_answer(pre: State, event: Event)
    requires
        pre.wf(),
        failure(pre, event).is_none(),
        answer(pre, event) is Finished,
    ensures
        event is Reinforced,
        next(pre, event).phase == Phase::Idle,
        next(pre, event).best.len() > 0,
        next(pre, event).best == pre.best,
        next(pre, event).best_cost == pre.best_cost,
        answer(pre, event) == (ActionView::Finished { solutions: pre.solutions }),
        pre.solutions.len() == pre.size,
        forall|i: int|
            0 <= i < pre.solutions.len() ==> {
                &&& is_tour((#[trigger] pre.solutions[i]).0, pre.n, pre.initial)
                &&& !pre.solutions[i].1.nan()
                &&& next(pre, event).best_cost.rank() <= pre.solutions[i].1.rank()
            },
{
    match event {
        Event::Reinforced(levels) => {
            assert(next(pre, event).best == pre.best);
            assert(next(pre, event).best_cost == pre.best_cost);
        },
        _ => {},
    }
}

/// No event changes the number of cities, the number of ants or the city
/// in which they set out.
proof fn lemma_next_keeps_setup(pre: State, event: Event)
    ensures
        next(pre, event).n == pre.n,
        next(pre, event).size == pre.size,
        next(pre, event).initial == pre.initial,
{
}

/// The best tour follows the tours of the generation: an event that
/// records a tour lets it take the place of the best one if it improves on
/// it, and no other event touches either.
proof fn lemma_best_follows(origin_best: Seq<usize>, origin_cost: Scalar, pre: State, event: Event)
    requires
        pre.wf(),
        pre.phase != Phase::Idle,
        failure(pre, event).is_none(),
        !(event is Reinforced),
        (pre.best, pre.best_cost) == best_after(origin_best, origin_cost, pre.solutions),
    ensures
        (next(pre, event).best, next(pre, event).best_cost) == best_after(
            origin_best,
            origin_cost,
            next(pre, event).solutions,
        ),
{
    match event {
        Event::Cost(cost) => {
            let longer = pre.solutions.push((pre.visited, cost));
            assert(longer.drop_last() =~= pre.solutions);
            assert(longer.last() == (pre.visited, cost));
            assert(next(pre, event).solutions == longer);
        },
        _ => {},
    }
}

/// A generation that is not over is under way.
proof fn lemma_goes_on(origin: State, events: Seq<Event>, now: State, action: ActionView)
    requires
        origin.wf(),
        now.wf(),
        now == replay(origin, events),
        all_taken(origin, events),
        one_generation(events),
        events.len() >= 1,
        events[0] == Event::Start,
        failure(origin, Event::Start).is_none(),
        origin.solutions.len() == 0,
        now.n == origin.n,
        now.size == origin.size,
        now.initial == origin.initial,
        action == answer(replay(origin, events.drop_last()), events.last()),
        !(action is Finished),
        now.phase != Phase::Idle,
        !(events.last() is Reinforced),
        (now.best, now.best_cost) == best_after(origin.best, origin.best_cost, now.solutions),
        counts_fit(now, events),
    ensures
        under_way(origin, events, now, action),
{
    reveal(under_way);
}

/// A generation that is over was under way to its end.
proof fn lemma_is_over(
    origin: State,
    events: Seq<Event>,
    now: State,
    solutions: Seq<(Seq<usize>, Scalar)>,
)
    requires
        origin.wf(),
        now.wf(),
        now == replay(origin, events),
        all_taken(origin, events),
        one_generation(events),
        events.len() == events_of_generation(origin.size, origin.n),
        draws(events) == origin.size * (origin.n - 1),
        choices(events) == origin.size * (origin.n - 1),
        events[0] == Event::Start,
        failure(origin, Event::Start).is_none(),
        origin.solutions.len() == 0,
        now.n == origin.n,
        now.size == origin.size,
        now.initial == origin.initial,
        (ActionView::Finished { solutions }) == answer(
            replay(origin, events.drop_last()),
            events.last(),
        ),
        now.phase == Phase::Idle,
        now.best.len() > 0,
        events.last() is Reinforced,
        solutions == replay(origin, events.drop_last()).solutions,
        solutions.len() == now.size,
        (now.best, now.best_cost) == best_after(origin.best, origin.best_cost, solutions),
        forall|i: int|
            0 <= i < solutions.len() ==> {
                &&& is_tour((#[trigger] solutions[i]).0, now.n, now.initial)
                &&& !solutions[i].1.nan()
                &&& now.best_cost.rank() <= solutions[i].1.rank()
            },
    ensures
        under_way(origin, events, now, ActionView::Finished { solutions }),
{
    reveal(under_way);
}

/// What is known of a generation under way when an event is taken.
spec fn so_far(origin: State, events: Seq<Event>, pre: State) -> bool {
    &&& origin.wf()
    &&& pre.wf()
    &&& pre == replay(origin, events)
    &&& all_taken(origin, events)
    &&& one_generation(events)
    &&& events.len() >= 1
    &&& events[0] == Event::Start
    &&& !(events.last() is Reinforced)
    &&& failure(origin, Event::Start).is_none()
    &&& origin.solutions.len() == 0
    &&& pre.n == origin.n
    &&& pre.size == origin.size
    &&& pre.initial == origin.initial
    &&& pre.phase != Phase::Idle
    &&& (pre.best, pre.best_cost) == best_after(origin.best, origin.best_cost, pre.solutions)
    &&& counts_fit(pre, events)
}

/// The events with one more that is taken are still one generation.
proof fn lemma_longer(origin: State, events: Seq<Event>, pre: State, event: Event)
    requires
        so_far(origin, events, pre),
        failure(pre, event).is_none(),
    ensures
        all_taken(origin, events.push(event)),
        one_generation(events.push(event)),
        next(pre, event) == replay(origin, events.push(event)),
        events.push(event).len() >= 2,
        events.push(event)[0] == Event::Start,
        events.push(event).last() == event,
        events.push(event).drop_last() == events,
        next(pre, event).wf(),
        next(pre, event).n == origin.n,
        next(pre, event).size == origin.size,
        next(pre, event).initial == origin.initial,
{
    let longer = events.push(event);
    lemma_all_taken_push(origin, events, event);
    lemma_next_wf(pre, event);
    lemma_next_keeps_setup(pre, event);
    assert(longer.drop_last() =~= events);
    assert(longer.last() == event);
    assert(longer[0] == events[0]);
    assert forall|k: int| 0 <= k < longer.len() - 1 implies !(#[trigger] longer[k] is Reinforced) by {
        assert(longer[k] == events[k]);
    }
}

/// An event that is taken and does not end the generation leaves it under
/// way.
proof fn lemma_step_goes_on(origin: State, events: Seq<Event>, pre: State, event: Event)
    requires
        so_far(origin, events, pre),
        failure(pre, event).is_none(),
        !(answer(pre, event) is Finished),
    ensures
        under_way(origin, events.push(event), next(pre, event), answer(pre, event)),
{
    lemma_longer(origin, events, pre, event);
    lemma_not_the_end(pre, event);
    lemma_best_follows(origin.best, origin.best_cost, pre, event);
    lemma_counts_follow(pre, events, event);
    assert(next(pre, event).phase != Phase::Idle) by {
        lemma_progress(pre, event);
    }
    lemma_goes_on(origin, events.push(event), next(pre, event), answer(pre, event));
}

/// An event that is taken and ends the generation leaves it over.
proof fn lemma_step_is_over(origin: State, events: Seq<Event>, pre: State, event: Event)
    requires
        so_far(origin, events, pre),
        failure(pre, event).is_none(),
        answer(pre, event) is Finished,
    ensures
        under_way(origin, events.push(event), next(pre, event), answer(pre, event)),
{
    lemma_longer(origin, events, pre, event);
    lemma_finished_answer(pre, event);
    lemma_counts_at_the_end(pre, events, event);
    lemma_is_over(origin, events.push(event), next(pre, event), pre.solutions);
}

/// An event that is taken leaves the generation under way and nearer to
/// its end.
pub(crate) proof fn lemma_under_way_step(
    origin: State,
    events: Seq<Event>,
    pre: State,
    asked: ActionView,
    event: Event,
)
    requires
        under_way(origin, events, pre, asked),
        !(asked is Finished),
        failure(pre, event).is_none(),
    ensures
        under_way(origin, events.push(event), next(pre, event), answer(pre, event)),
        rounds_left(answer(pre, event)) <= rounds_left(asked),
        rounds_left(answer(pre, event)) == rounds_left(asked) ==> {
            &&& 0 <= ants_left(next(pre, event)) <= ants_left(pre)
            &&& 0 <= steps_left(next(pre, event))
            &&& ants_left(next(pre, event)) == ants_left(pre) ==> steps_left(next(pre, event))
                < steps_left(pre)
        },
{
    lemma_under_way_so_far(origin, events, pre, asked);
    lemma_progress(pre, event);
    if answer(pre, event) is Finished {
        lemma_step_is_over(origin, events, pre, event);
    } else {
        lemma_step_goes_on(origin, events, pre, event);
    }
}

/// An event that ends a generation is answered with `Finished`.
proof fn lemma_not_the_end(pre: State, event: Event)
    requires
        failure(pre, event).is_none(),
        !(answer(pre, event) is Finished),
    ensures
        !(event is Reinforced),
{
}

/// An event that is refused ends `run` with the failure of that event.
pub(crate) proof fn lemma_under_way_refused<F: FnMut(&Action) -> Event>(
    origin: State,
    events: Seq<Event>,
    now: State,
    serve: F,
    asked: Action,
    event: Event,
    e: AcsError,
)
    requires
        under_way(origin, events, now, asked@),
        !(asked@ is Finished),
        all_served(origin, events, serve),
        call_ensures(serve, (&asked,), event),
        failure(now, event) == Some(e),
    ensures
        generation_went(origin, events, serve, now, Err(e)),
        !never_refused(origin, serve),
{
    reveal(under_way);
    reveal(generation_went);
    assert(served_by(serve, replay(origin, events.drop_last()), events.last(), event));
}

/// A generation that is over hands out the tours that `run` owes.
pub(crate) proof fn lemma_under_way_finished<F: FnMut(&Action) -> Event>(
    origin: State,
    events: Seq<Event>,
    now: State,
    serve: F,
    solutions: Vec<(Vec<usize>, Scalar)>,
)
    requires
        under_way(origin, events, now, ActionView::Finished { solutions: tours_view(solutions@) }),
        all_served(origin, events, serve),
    ensures
        generation_went(origin, events, serve, now, Ok(solutions)),
        now.phase == Phase::Idle,
        now.best.len() > 0,
        solutions@.len() == origin.size,
        (now.best, now.best_cost) == best_after(origin.best, origin.best_cost, tours_view(solutions@)),
        forall|i: int|
            0 <= i < solutions@.len() ==> {
                &&& is_tour((#[trigger] solutions@[i]).0@, origin.n, origin.initial)
                &&& !solutions@[i].1.nan()
                &&& now.best_cost.rank() <= solutions@[i].1.rank()
            },
{
    reveal(under_way);
    reveal(generation_went);
    assert forall|i: int| 0 <= i < solutions@.len() implies {
        &&& is_tour((#[trigger] solutions@[i]).0@, origin.n, origin.initial)
        &&& !solutions@[i].1.nan()
        &&& now.best_cost.rank() <= solutions@[i].1.rank()
    } by {
        assert(tours_view(solutions@)[i] == (solutions@[i].0@, solutions@[i].1));
    }
}

} // verus!
