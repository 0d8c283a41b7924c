use vstd::prelude::*;
use crate::cost::valid_distances;
use crate::error::AcsError;
use crate::matrix::{along_cells, cell, fits, pick_cells, square};
use crate::pheromone::{
    all_levels, deposited, global_failure, local_failure, reinforced, zero_diagonal,
};
use crate::scalar::Scalar;
use crate::tour::{candidates_of, diversified, intensified, is_path, is_tour};

verus! {

/// Where a generation stands, named by what the colony waits for.
#[derive(Clone, Copy, Debug, PartialEq, Eq, Structural)]
pub enum Phase {
    /// No generation is under way.
    Idle,
    /// An ant stands in a city and waits for the draw that picks its rule.
    Selecting,
    /// The rule is picked and the ant waits for the scores of the candidates.
    Scoring { exploit: bool },
    /// The ant has entered a city and the way it took waits for its new level.
    Depositing,
    /// The ant has finished its tour, which waits for its cost.
    Measuring,
    /// Every ant has finished and the best tour waits for its new levels.
    Reinforcing,
}

/// What the caller has worked out for the colony.
#[derive(Debug, PartialEq, Eq)]
pub enum Event {
    /// A generation is to begin.
    Start,
    /// A number drawn from the unit interval.
    Draw(Scalar),
    /// The score of each candidate, for the greedy rule.
    Scores(Vec<Scalar>),
    /// The sum of the candidates' weights, the running sums of their shares
    /// in it, and a number drawn from the unit interval.
    Wheel { total: Scalar, cumulative: Vec<Scalar>, draw: Scalar },
    /// The level that the local rule makes of the one handed out.
    Deposited(Scalar),
    /// The sum of the lengths handed out.
    Cost(Scalar),
    /// The levels that the global rule makes of the ones handed out.
    Reinforced(Vec<Scalar>),
}

/// What the colony asks of the caller next, with all the numbers it takes.
#[derive(Debug, PartialEq, Eq)]
pub enum Action {
    /// Draw a number from the unit interval.
    Draw,
    /// Score the candidates: `pheromone[i]` and `visibility[i]` are the
    /// level and the visibility on the way from `from` to `candidates[i]`.
    /// The greedy rule is to be served if `exploit` is set, else the wheel.
    Score {
        exploit: bool,
        from: usize,
        candidates: Vec<usize>,
        pheromone: Vec<Scalar>,
        visibility: Vec<Scalar>,
    },
    /// The ant went from `from` to `to`, where the way carries `level`.
    Deposit { from: usize, to: usize, level: Scalar },
    /// An ant has finished `tour`, whose steps have the given lengths.
    Measure { tour: Vec<usize>, lengths: Vec<Scalar> },
    /// The best tour so far, its cost, and the level on each of its steps.
    Reinforce { tour: Vec<usize>, cost: Scalar, levels: Vec<Scalar> },
    /// The generation is over: the tour and the cost of each ant, in order.
    Finished { solutions: Vec<(Vec<usize>, Scalar)> },
}

/// An action as contracts speak of it.
pub enum ActionView {
    Draw,
    Score {
        exploit: bool,
        from: usize,
        candidates: Seq<usize>,
        pheromone: Seq<Scalar>,
        visibility: Seq<Scalar>,
    },
    Deposit { from: usize, to: usize, level: Scalar },
    Measure { tour: Seq<usize>, lengths: Seq<Scalar> },
    Reinforce { tour: Seq<usize>, cost: Scalar, levels: Seq<Scalar> },
    Finished { solutions: Seq<(Seq<usize>, Scalar)> },
}

/// Tours and their costs as contracts speak of them.
pub open spec fn tours_view(v: Seq<(Vec<usize>, Scalar)>) -> Seq<(Seq<usize>, Scalar)> {
    Seq::new(v.len(), |i: int| (v[i].0@, v[i].1))
}

impl Action {
    pub open spec fn view(&self) -> ActionView {
        match *self {
            Action::Draw => ActionView::Draw,
            Action::Score { exploit, from, candidates, pheromone, visibility } => ActionView::Score {
                exploit,
                from,
                candidates: candidates@,
                pheromone: pheromone@,
                visibility: visibility@,
            },
            Action::Deposit { from, to, level } => ActionView::Deposit { from, to, level },
            Action::Measure { tour, lengths } => ActionView::Measure {
                tour: tour@,
                lengths: lengths@,
            },
            Action::Reinforce { tour, cost, levels } => ActionView::Reinforce {
                tour: tour@,
                cost,
                levels: levels@,
            },
            Action::Finished { solutions } => ActionView::Finished {
                solutions: tours_view(solutions@),
            },
        }
    }
}

/// A colony as contracts speak of it.
pub struct State {
    pub alpha: Scalar,
    pub beta: Scalar,
    pub rho: Scalar,
    pub q: Scalar,
    pub q0: Scalar,
    pub phi: Scalar,
    pub initial_pheromone: Scalar,
    /// The number of cities.
    pub n: nat,
    /// The number of ants in a generation.
    pub size: nat,
    /// The city in which every ant begins.
    pub initial: usize,
    pub distances: Seq<Seq<u64>>,
    pub visibility: Seq<Seq<u64>>,
    pub pheromones: Seq<Seq<u64>>,
    /// The cheapest tour seen in any generation, empty before the first.
    pub best: Seq<usize>,
    /// The cost of `best`, where there is one.
    pub best_cost: Scalar,
    pub phase: Phase,
    /// The path of the ant that is under way.
    pub visited: Seq<usize>,
    /// The tours that the ants of this generation have finished.
    pub solutions: Seq<(Seq<usize>, Scalar)>,
}

impl State {
    /// The city in which the ant under way stands.
    pub open spec fn current(self) -> usize {
        self.visited.last()
    }

    /// The cities that the ant under way may enter next.
    pub open spec fn candidates(self) -> Seq<usize> {
        candidates_of(self.visited, self.n)
    }

    /// What holds of a colony at all times.
    pub open spec fn wf(self) -> bool {
        &&& tables_fit(self.n, self.initial, self.distances, self.visibility, self.pheromones)
        &&& records_fit(self.n, self.initial, self.size, self.best, self.best_cost, self.solutions)
        &&& phase_fits(
            self.phase,
            self.n,
            self.initial,
            self.size,
            self.visited,
            self.solutions.len(),
            self.best.len(),
        )
    }
}

/// The three tables have a row and a column for each city, the distances
/// between different cities and their visibilities are finite and above
/// zero, every way of the field carries a finite level that is not below
/// zero, and the diagonal of the field carries nothing.
pub open spec fn tables_fit(
    n: nat,
    initial: usize,
    distances: Seq<Seq<u64>>,
    visibility: Seq<Seq<u64>>,
    pheromones: Seq<Seq<u64>>,
) -> bool {
    &&& initial < n
    &&& fits(n)
    &&& square(distances, n)
    &&& square(visibility, n)
    &&& square(pheromones, n)
    &&& valid_distances(distances)
    &&& valid_distances(visibility)
    &&& all_levels(pheromones)
    &&& zero_diagonal(pheromones)
}

/// The best tour, where there is one, and each tour of the generation under
/// way is a tour from the initial city with a cost that is a number, and no
/// tour of the generation is cheaper than the best one.
pub open spec fn records_fit(
    n: nat,
    initial: usize,
    size: nat,
    best: Seq<usize>,
    best_cost: Scalar,
    solutions: Seq<(Seq<usize>, Scalar)>,
) -> bool {
    &&& best.len() > 0 ==> {
        &&& is_tour(best, n, initial)
        &&& !best_cost.nan()
        &&& n >= 2
    }
    &&& solutions.len() <= size
    &&& forall|i: int|
        0 <= i < solutions.len() ==> {
            &&& is_tour((#[trigger] solutions[i]).0, n, initial)
            &&& !solutions[i].1.nan()
            &&& best.len() > 0
            &&& best_cost.rank() <= solutions[i].1.rank()
        }
}

/// The path under way is what the phase takes it to be. `done` counts the
/// tours that the generation has finished and `best_len` the cities of the
/// best tour.
pub open spec fn phase_fits(
    phase: Phase,
    n: nat,
    initial: usize,
    size: nat,
    visited: Seq<usize>,
    done: nat,
    best_len: nat,
) -> bool {
    match phase {
        Phase::Idle => visited.len() == 0 && done == 0,
        Phase::Selecting => is_path(visited, n, initial) && visited.len() < n && done < size,
        Phase::Scoring { exploit } => is_path(visited, n, initial) && visited.len() < n && done < size,
        Phase::Depositing => is_path(visited, n, initial) && visited.len() >= 2 && done < size,
        Phase::Measuring => is_tour(visited, n, initial) && n >= 2 && done < size,
        Phase::Reinforcing => visited.len() == 0 && done == size && best_len > 0,
    }
}

/// The request to reinforce the best tour of `s`.
pub open spec fn reinforce_request(s: State) -> ActionView {
    ActionView::Reinforce {
        tour: s.best,
        cost: s.best_cost,
        levels: along_cells(s.pheromones, s.best),
    }
}

/// The colony after a generation has begun. With no ant at all the
/// generation goes straight to its end.
pub open spec fn after_start(pre: State) -> State {
    if pre.size == 0 {
        State { phase: Phase::Reinforcing, ..pre }
    } else {
        State { phase: Phase::Selecting, visited: seq![pre.initial], ..pre }
    }
}

/// The colony after the draw `q` has picked the rule: the greedy one where
/// `q` is at most the threshold.
pub open spec fn after_draw(pre: State, q: Scalar) -> State {
    State { phase: Phase::Scoring { exploit: q.rank() <= pre.q0.rank() }, ..pre }
}

/// The request to score the candidates of the ant under way.
pub open spec fn score_request(pre: State, q: Scalar) -> ActionView {
    ActionView::Score {
        exploit: q.rank() <= pre.q0.rank(),
        from: pre.current(),
        candidates: pre.candidates(),
        pheromone: pick_cells(pre.pheromones, pre.current(), pre.candidates()),
        visibility: pick_cells(pre.visibility, pre.current(), pre.candidates()),
    }
}

/// The colony after the ant under way has entered `city`.
pub open spec fn after_choice(pre: State, city: usize) -> State {
    State { phase: Phase::Depositing, visited: pre.visited.push(city), ..pre }
}

/// The request for the new level of the way into `city`. The level handed
/// out is the one that the way carries now, whatever ants before have left.
pub open spec fn deposit_request(pre: State, city: usize) -> ActionView {
    ActionView::Deposit {
        from: pre.current(),
        to: city,
        level: cell(pre.pheromones, pre.current() as int, city as int),
    }
}

/// The colony after the way that the ant took last has its new level.
pub open spec fn after_deposit(pre: State, level: Scalar) -> State {
    State {
        pheromones: deposited(
            pre.pheromones,
            pre.visited[pre.visited.len() - 2] as int,
            pre.visited[pre.visited.len() - 1] as int,
            level,
        ),
        phase: if pre.visited.len() == pre.n {
            Phase::Measuring
        } else {
            Phase::Selecting
        },
        ..pre
    }
}

/// What is asked after a deposit: the cost of the tour if it is finished,
/// else the next draw.
pub open spec fn after_deposit_request(pre: State) -> ActionView {
    if pre.visited.len() == pre.n {
        ActionView::Measure { tour: pre.visited, lengths: along_cells(pre.distances, pre.visited) }
    } else {
        ActionView::Draw
    }
}

/// Whether a tour of cost `cost` takes the place of the best tour: there is
/// none yet, or `cost` is strictly less than its cost.
pub open spec fn improves(pre: State, cost: Scalar) -> bool {
    pre.best.len() == 0 || cost.rank() < pre.best_cost.rank()
}

/// The colony after the tour of the ant under way has got its cost: the tour
/// is recorded, it becomes the best one if it improves on it, and the next
/// ant sets out, if there is one.
pub open spec fn after_cost(pre: State, cost: Scalar) -> State {
    let solutions = pre.solutions.push((pre.visited, cost));
    let best = if improves(pre, cost) {
        pre.visited
    } else {
        pre.best
    };
    let best_cost = if improves(pre, cost) {
        cost
    } else {
        pre.best_cost
    };
    if solutions.len() < pre.size {
        State { phase: Phase::Selecting, visited: seq![pre.initial], solutions, best, best_cost, ..pre }
    } else {
        State { phase: Phase::Reinforcing, visited: Seq::empty(), solutions, best, best_cost, ..pre }
    }
}

/// What is asked after a cost: the next draw, or the new levels of the best
/// tour once every ant has finished.
pub open spec fn after_cost_request(pre: State, cost: Scalar) -> ActionView {
    if pre.solutions.len() + 1 < pre.size {
        ActionView::Draw
    } else {
        reinforce_request(after_cost(pre, cost))
    }
}

/// The colony after the steps of the best tour have their new levels: the
/// generation is over, and its tours are handed out.
pub open spec fn after_reinforcement(pre: State, levels: Seq<Scalar>) -> State {
    State {
        pheromones: reinforced(pre.pheromones, pre.best, levels, (pre.best.len() - 1) as nat),
        phase: Phase::Idle,
        solutions: Seq::empty(),
        ..pre
    }
}

/// Why the colony refuses an event, if it does.
pub open spec fn failure(pre: State, event: Event) -> Option<AcsError> {
    match event {
        Event::Start => if pre.phase != Phase::Idle {
            Some(AcsError::UnexpectedEvent)
        } else if pre.size == 0 {
            if pre.best.len() == 0 {
                Some(AcsError::EmptyBestTour)
            } else {
                None
            }
        } else if pre.n < 2 {
            Some(AcsError::InvalidTour)
        } else {
            None
        },
        Event::Draw(q) => if pre.phase != Phase::Selecting {
            Some(AcsError::UnexpectedEvent)
        } else if q.nan() || pre.q0.nan() {
            Some(AcsError::InvalidCost)
        } else {
            None
        },
        Event::Scores(scores) => if pre.phase != (Phase::Scoring { exploit: true }) {
            Some(AcsError::UnexpectedEvent)
        } else {
            match intensified(pre.candidates(), scores@) {
                Ok(_) => None,
                Err(e) => Some(e),
            }
        },
        Event::Wheel { total, cumulative, draw } => if pre.phase != (Phase::Scoring {
            exploit: false,
        }) {
            Some(AcsError::UnexpectedEvent)
        } else {
            match diversified(pre.candidates(), total, cumulative@, draw) {
                Ok(_) => None,
                Err(e) => Some(e),
            }
        },
        Event::Deposited(level) => if pre.phase != Phase::Depositing {
            Some(AcsError::UnexpectedEvent)
        } else {
            local_failure(level)
        },
        Event::Cost(cost) => if pre.phase != Phase::Measuring {
            Some(AcsError::UnexpectedEvent)
        } else if cost.nan() {
            Some(AcsError::InvalidCost)
        } else {
            None
        },
        Event::Reinforced(levels) => if pre.phase != Phase::Reinforcing {
            Some(AcsError::UnexpectedEvent)
        } else {
            global_failure(pre.n, pre.best, levels@)
        },
    }
}

/// The colony after an event that it does not refuse.
pub open spec fn next(pre: State, event: Event) -> State {
    match event {
        Event::Start => after_start(pre),
        Event::Draw(q) => after_draw(pre, q),
        Event::Scores(scores) => after_choice(pre, intensified(pre.candidates(), scores@).unwrap()),
        Event::Wheel { total, cumulative, draw } => after_choice(
            pre,
            diversified(pre.candidates(), total, cumulative@, draw).unwrap(),
        ),
        Event::Deposited(level) => after_deposit(pre, level),
        Event::Cost(cost) => after_cost(pre, cost),
        Event::Reinforced(levels) => after_reinforcement(pre, levels@),
    }
}

/// What the colony asks for after an event that it does not refuse.
pub open spec fn answer(pre: State, event: Event) -> ActionView {
    match event {
        Event::Start => if pre.size == 0 {
            reinforce_request(pre)
        } else {
            ActionView::Draw
        },
        Event::Draw(q) => score_request(pre, q),
        Event::Scores(scores) => deposit_request(pre, intensified(pre.candidates(), scores@).unwrap()),
        Event::Wheel { total, cumulative, draw } => deposit_request(
            pre,
            diversified(pre.candidates(), total, cumulative@, draw).unwrap(),
        ),
        Event::Deposited(level) => after_deposit_request(pre),
        Event::Cost(cost) => after_cost_request(pre, cost),
        Event::Reinforced(levels) => ActionView::Finished { solutions: pre.solutions },
    }
}

/// The colony after a run of events, each taken in the state that the ones
/// before it have left. An event that is refused changes nothing.
pub open spec fn replay(pre: State, events: Seq<Event>) -> State
    decreases events.len(),
{
    if events.len() == 0 {
        pre
    } else {
        let mid = replay(pre, events.drop_last());
        if failure(mid, events.last()).is_none() {
            next(mid, events.last())
        } else {
            mid
        }
    }
}

/// Every event of the run is taken in its turn, none is refused.
pub open spec fn all_taken(pre: State, events: Seq<Event>) -> bool {
    forall|k: int|
        0 <= k < events.len() ==> failure(replay(pre, #[trigger] events.take(k)), events[k]).is_none()
}

/// How many ants of the generation under way have not finished their tour.
pub open spec fn ants_left(s: State) -> int {
    s.size - s.solutions.len()
}

/// How many events the ant under way is from the cost of its tour, at most,
/// or the generation from its end once every ant has finished.
pub open spec fn steps_left(s: State) -> int {
    match s.phase {
        Phase::Idle => 0,
        Phase::Selecting => 3 * (s.n - s.visited.len()) + 1,
        Phase::Scoring { exploit } => 3 * (s.n - s.visited.len()),
        Phase::Depositing => 3 * (s.n - s.visited.len()) + 2,
        Phase::Measuring => 1,
        Phase::Reinforcing => 1,
    }
}

/// Whether a generation still has events to take.
pub open spec fn rounds_left(action: ActionView) -> int {
    if action is Finished {
        0
    } else {
        1
    }
}

/// The best tour and its cost after the tours `solutions` were recorded one
/// after the other, each taking the place of the best one where there was
/// none or where it is strictly cheaper.
pub open spec fn best_after(best: Seq<usize>, cost: Scalar, solutions: Seq<(Seq<usize>, Scalar)>) -> (
    Seq<usize>,
    Scalar,
)
    decreases solutions.len(),
{
    if solutions.len() == 0 {
        (best, cost)
    } else {
        let before = best_after(best, cost, solutions.drop_last());
        if before.0.len() == 0 || solutions.last().1.rank() < before.1.rank() {
            solutions.last()
        } else {
            before
        }
    }
}

/// How many of the events are draws that pick a rule.
pub open spec fn draws(events: Seq<Event>) -> nat
    decreases events.len(),
{
    if events.len() == 0 {
        0
    } else {
        draws(events.drop_last()) + if events.last() is Draw {
            1nat
        } else {
            0nat
        }
    }
}

/// How many of the events bring the scores or the wheel for a choice.
pub open spec fn choices(events: Seq<Event>) -> nat
    decreases events.len(),
{
    if events.len() == 0 {
        0
    } else {
        choices(events.drop_last()) + if events.last() is Scores || events.last() is Wheel {
            1nat
        } else {
            0nat
        }
    }
}

/// How many events a whole generation of `size` ants among `n` cities
/// takes: its start, for each ant a draw, a choice and a deposit for each
/// city but the first and then the cost, and the new levels at the end.
pub open spec fn events_of_generation(size: nat, n: nat) -> int {
    2 + size * (3 * (n - 1) + 1)
}

} // verus!
