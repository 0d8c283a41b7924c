use vstd::prelude::*;
use crate::cost::{check_distances, valid_distances};
use crate::error::AcsError;
use crate::generation::{
    all_served, generation_went, lemma_all_served_push, lemma_none_served, lemma_refused_at_once,
    never_refused,
    lemma_under_way,
    lemma_under_way_finished, lemma_under_way_refused, lemma_under_way_start,
    lemma_under_way_step, under_way,
};
use crate::laws::{lemma_fits_bounded, lemma_next_wf};
use crate::matrix::Matrix;
use crate::pheromone::{global_update, initial_field, initialize, is_level, local_update};
use crate::scalar::Scalar;
use crate::state::{
    after_choice, answer, ants_left, best_after, deposit_request, failure, next,
    reinforce_request, rounds_left, steps_left, tours_view, Action, Event, Phase, State,
};
use crate::tour::{
    candidates, copy_cities, is_tour, lemma_unvisited_below, select_diversified,
    select_intensified,
};

verus! {

/// What a colony is set up with: the weights and rates of the rules, the
/// level that every way carries at first, and the distances.
#[derive(Clone, Debug)]
pub struct AntProps {
    pub alpha: Scalar,
    pub beta: Scalar,
    pub rho: Scalar,
    pub q: Scalar,
    pub q0: Scalar,
    pub phi: Scalar,
    pub initial_pheromone: Scalar,
    pub distances: Matrix,
}

/// The colony as `new` leaves it: nothing is under way, no tour is recorded,
/// and every way between two cities carries the initial level.
pub open spec fn initial_state(size: usize, initial: usize, props: AntProps, visibility: Seq<Seq<u64>>) -> State {
    State {
        alpha: props.alpha,
        beta: props.beta,
        rho: props.rho,
        q: props.q,
        q0: props.q0,
        phi: props.phi,
        initial_pheromone: props.initial_pheromone,
        n: props.distances.dim(),
        size: size as nat,
        initial,
        distances: props.distances@,
        visibility,
        pheromones: initial_field(props.distances.dim(), props.initial_pheromone),
        best: Seq::empty(),
        best_cost: Scalar { bits: 0 },
        phase: Phase::Idle,
        visited: Seq::empty(),
        solutions: Seq::empty(),
    }
}

/// What `step` owes for the event `event`, received in the state `pre`: the
/// failure and the state untouched, or the answer and the next state.
pub open spec fn step_ensures(pre: State, event: Event, post: State, r: Result<Action, AcsError>) -> bool {
    match failure(pre, event) {
        Some(e) => r == Err::<Action, AcsError>(e) && post == pre,
        None => r.is_ok() && r.unwrap()@ == answer(pre, event) && post == next(pre, event),
    }
}

/// An ant colony: the tables it works on, the best tour it has seen, and
/// the generation that is under way.
///
/// The colony decides and keeps the books. All arithmetic on real numbers is
/// the caller's: `step` hands out the numbers that a rule takes, and the next
/// event brings back what the rule makes of them.
#[derive(Clone, Debug)]
pub struct AntSystem {
    alpha: Scalar,
    beta: Scalar,
    rho: Scalar,
    q: Scalar,
    q0: Scalar,
    phi: Scalar,
    size: usize,
    initial: usize,
    distances: Matrix,
    visibility: Matrix,
    pheromones: Matrix,
    initial_pheromone: Scalar,
    best_solution: Vec<usize>,
    best_cost: Scalar,
    phase: Phase,
    visited: Vec<usize>,
    solutions: Vec<(Vec<usize>, Scalar)>,
}

impl AntSystem {
    pub closed spec fn view(&self) -> State {
        State {
            alpha: self.alpha,
            beta: self.beta,
            rho: self.rho,
            q: self.q,
            q0: self.q0,
            phi: self.phi,
            initial_pheromone: self.initial_pheromone,
            n: self.distances.dim(),
            size: self.size as nat,
            initial: self.initial,
            distances: self.distances@,
            visibility: self.visibility@,
            pheromones: self.pheromones@,
            best: self.best_solution@,
            best_cost: self.best_cost,
            phase: self.phase,
            visited: self.visited@,
            solutions: tours_view(self.solutions@),
        }
    }

    /// A colony of `size` ants that all set out from `initial`. `visibility`
    /// holds the reciprocal of each distance. The colony is refused with
    /// `InvalidDistance` exactly when a distance between two different
    /// cities, or its visibility, is zero, negative, infinite or no number.
    pub fn new(size: usize, initial: usize, props: AntProps, visibility: Matrix) -> (r: Result<
        AntSystem,
        AcsError,
    >)
        requires
            props.distances.wf(),
            visibility.wf(),
            visibility.dim() == props.distances.dim(),
            initial < props.distances.dim(),
            is_level(props.initial_pheromone),
        ensures
            valid_distances(props.distances@) && valid_distances(visibility@) ==> r.is_ok()
                && r.unwrap()@ == initial_state(size, initial, props, visibility@)
                && r.unwrap()@.wf(),
            !(valid_distances(props.distances@) && valid_distances(visibility@)) ==> (r matches Err(
                e,
            ) && e == AcsError::InvalidDistance),
    {
        if check_distances(&visibility).is_err() {
            return Err(AcsError::InvalidDistance);
        }
        match check_distances(&props.distances) {
            Err(e) => Err(e),
            Ok(()) => {
                let n: usize = props.distances.size();
                let pheromones: Matrix = initialize(n, props.initial_pheromone);
                let system = AntSystem {
                    alpha: props.alpha,
                    beta: props.beta,
                    rho: props.rho,
                    q: props.q,
                    q0: props.q0,
                    phi: props.phi,
                    size,
                    initial,
                    distances: props.distances,
                    visibility,
                    pheromones,
                    initial_pheromone: props.initial_pheromone,
                    best_solution: Vec::new(),
                    best_cost: Scalar::zero_value(),
                    phase: Phase::Idle,
                    visited: Vec::new(),
                    solutions: Vec::new(),
                };
                proof {
                    assert(tours_view(system.solutions@) =~= Seq::empty());
                    assert(system.best_solution@ =~= Seq::empty());
                    assert(system.visited@ =~= Seq::empty());
                }
                Ok(system)
            },
        }
    }

    /// The number of cities.
    pub fn cities(&self) -> (n: usize)
        ensures
            n == self@.n,
    {
        self.distances.size()
    }

    /// The number of ants in a generation.
    pub fn size(&self) -> (size: usize)
        ensures
            size == self@.size,
    {
        self.size
    }

    /// The city in which every ant begins.
    pub fn initial(&self) -> (city: usize)
        ensures
            city == self@.initial,
    {
        self.initial
    }

    /// The weight of the pheromone in the wheel.
    pub fn alpha(&self) -> (v: Scalar)
        ensures
            v == self@.alpha,
    {
        self.alpha
    }

    /// The weight of the visibility in both rules.
    pub fn beta(&self) -> (v: Scalar)
        ensures
            v == self@.beta,
    {
        self.beta
    }

    /// The rate of the global rule.
    pub fn rho(&self) -> (v: Scalar)
        ensures
            v == self@.rho,
    {
        self.rho
    }

    /// The reward that the global rule divides by the cost of the best tour.
    pub fn q(&self) -> (v: Scalar)
        ensures
            v == self@.q,
    {
        self.q
    }

    /// The threshold up to which a draw picks the greedy rule.
    pub fn q0(&self) -> (v: Scalar)
        ensures
            v == self@.q0,
    {
        self.q0
    }

    /// The rate of the local rule.
    pub fn phi(&self) -> (v: Scalar)
        ensures
            v == self@.phi,
    {
        self.phi
    }

    /// The level that every way between two cities carried at first.
    pub fn initial_pheromone(&self) -> (v: Scalar)
        ensures
            v == self@.initial_pheromone,
    {
        self.initial_pheromone
    }

    /// The distances.
    pub fn distances(&self) -> (m: &Matrix)
        ensures
            m@ == self@.distances,
            self@.wf() ==> m.wf() && m.dim() == self@.n,
    {
        &self.distances
    }

    /// The visibility of each way.
    pub fn visibility(&self) -> (m: &Matrix)
        ensures
            m@ == self@.visibility,
            self@.wf() ==> m.wf() && m.dim() == self@.n,
    {
        &self.visibility
    }

    /// The level that each way carries now.
    pub fn pheromones(&self) -> (m: &Matrix)
        ensures
            m@ == self@.pheromones,
            self@.wf() ==> m.wf() && m.dim() == self@.n,
    {
        &self.pheromones
    }

    /// The cheapest tour of all generations, empty before the first tour
    /// was measured.
    pub fn best_solution(&self) -> (tour: &Vec<usize>)
        ensures
            tour@ == self@.best,
    {
        &self.best_solution
    }

    /// The cost of the cheapest tour, once there is one.
    pub fn best_cost(&self) -> (cost: Option<Scalar>)
        ensures
            self@.best.len() == 0 ==> cost.is_none(),
            self@.best.len() > 0 ==> cost == Some(self@.best_cost),
    {
        if self.best_solution.len() == 0 {
            None
        } else {
            Some(self.best_cost)
        }
    }

    /// What the colony waits for.
    pub fn phase(&self) -> (phase: Phase)
        ensures
            phase == self@.phase,
    {
        self.phase
    }

    /// Takes what the caller has worked out and says what is to be worked
    /// out next. A generation runs from `Event::Start` to `Action::Finished`:
    /// each ant in turn walks its tour city by city, each way it takes gets
    /// its new level before the next choice is made, each finished tour is
    /// measured and recorded, and at the end the steps of the best tour of
    /// all generations get their new levels.
    ///
    /// An event that does not answer the last action, or that holds a number
    /// that cannot be used, is refused, and the colony stays as it was.
    pub fn step(&mut self, event: Event) -> (r: Result<Action, AcsError>)
        requires
            old(self)@.wf(),
        ensures
            final(self)@.wf(),
            match failure(old(self)@, event) {
                Some(e) => r == Err::<Action, AcsError>(e) && final(self)@ == old(self)@,
                None => r.is_ok() && r.unwrap()@ == answer(old(self)@, event) && final(self)@ == next(
                    old(self)@,
                    event,
                ),
            },
    {
        proof {
            lemma_fits_bounded(self@.n);
            if failure(self@, event).is_none() {
                lemma_next_wf(self@, event);
            }
        }
        match event {
            Event::Start => self.start(),
            Event::Draw(q) => self.pick_rule(q),
            Event::Scores(scores) => self.intensification(scores),
            Event::Wheel { total, cumulative, draw } => self.diversification(total, cumulative, draw),
            Event::Deposited(level) => self.deposit(level),
            Event::Cost(cost) => self.record(cost),
            Event::Reinforced(levels) => self.update_pheromones(levels),
        }
    }

    /// Runs one generation from its start to its end. What the colony asks
    /// for goes to `serve`, and what `serve` answers is the next event.
    ///
    /// The colony must be idle, else nothing happens and the call fails as
    /// `step` does for `Event::Start`. After that the colony takes
    /// `Event::Start` and then the answers of `serve`, one by one, as `step`
    /// does, until the generation is over or an answer is refused.
    ///
    /// The call fails only where `Start` is refused or where `serve` has
    /// answered with an event that `step` refuses, and the failure is the
    /// one of that event: with a `serve` whose every answer is taken, a
    /// generation that can begin succeeds.
    ///
    /// Where the call succeeds it returns the tour and the cost of each ant,
    /// in their order. The colony is idle again, each tour leads from the
    /// initial city through all the cities, and the best tour is the one
    /// that the colony had, or the first of the returned tours that is
    /// strictly cheaper than it and than every tour before it.
    pub fn run<F: FnMut(&Action) -> Event>(&mut self, serve: F) -> (r: Result<
        Vec<(Vec<usize>, Scalar)>,
        AcsError,
    >)
        requires
            old(self)@.wf(),
            forall|a: &Action| call_requires(serve, (a,)),
        ensures
            final(self)@.wf(),
            exists|events: Seq<Event>| generation_went(old(self)@, events, serve, final(self)@, r),
            failure(old(self)@, Event::Start) is None && never_refused(old(self)@, serve) ==> r is Ok,
            failure(old(self)@, Event::Start) matches Some(e) ==> r == Err::<
                Vec<(Vec<usize>, Scalar)>,
                AcsError,
            >(e) && final(self)@ == old(self)@,
            r matches Ok(solutions) ==> {
                &&& final(self)@.phase == Phase::Idle
                &&& final(self)@.best.len() > 0
                &&& solutions@.len() == old(self)@.size
                &&& (final(self)@.best, final(self)@.best_cost) == best_after(
                    old(self)@.best,
                    old(self)@.best_cost,
                    tours_view(solutions@),
                )
                &&& forall|i: int|
                    0 <= i < solutions@.len() ==> {
                        &&& is_tour((#[trigger] solutions@[i]).0@, old(self)@.n, old(self)@.initial)
                        &&& !solutions@[i].1.nan()
                        &&& final(self)@.best_cost.rank() <= solutions@[i].1.rank()
                    }
            },
    {
        let ghost mut events: Seq<Event> = Seq::empty();
        let mut server: F = serve;
        proof {
            lemma_none_served(self@, serve);
        }
        let first: Result<Action, AcsError> = self.step(Event::Start);
        let mut action: Action = match first {
            Ok(action) => action,
            Err(e) => {
                proof {
                    lemma_refused_at_once(old(self)@, serve, e);
                    assert(generation_went(
                        old(self)@,
                        events,
                        serve,
                        self@,
                        Err::<Vec<(Vec<usize>, Scalar)>, AcsError>(e),
                    ));
                }
                return Err(e);
            },
        };
        proof {
            lemma_under_way_start(old(self)@);
            events = events.push(Event::Start);
        }
        loop
            invariant
                under_way(old(self)@, events, self@, action@),
                all_served(old(self)@, events, serve),
                server == serve,
                forall|a: &Action| call_requires(server, (a,)),
            decreases rounds_left(action@), ants_left(self@), steps_left(self@),
        {
            proof {
                lemma_under_way(old(self)@, events, self@, action@);
            }
            match action {
                Action::Finished { solutions } => {
                    proof {
                        lemma_under_way_finished(old(self)@, events, self@, serve, solutions);
                        assert(generation_went(
                            old(self)@,
                            events,
                            serve,
                            self@,
                            Ok::<Vec<(Vec<usize>, Scalar)>, AcsError>(solutions),
                        ));
                    }
                    return Ok(solutions);
                },
                other => {
                    let event: Event = server(&other);
                    let ghost pre: State = self@;
                    let taken: Result<Action, AcsError> = self.step(event);
                    match taken {
                        Err(e) => {
                            proof {
                                lemma_under_way_refused(old(self)@, events, pre, serve, other, event, e);
                                assert(self@ == pre);
                                assert(generation_went(
                                    old(self)@,
                                    events,
                                    serve,
                                    self@,
                                    Err::<Vec<(Vec<usize>, Scalar)>, AcsError>(e),
                                ));
                            }
                            return Err(e);
                        },
                        Ok(following) => {
                            proof {
                                lemma_all_served_push(old(self)@, events, pre, serve, other, event);
                                lemma_under_way_step(old(self)@, events, pre, other@, event);
                                events = events.push(event);
                            }
                            action = following;
                        },
                    }
                },
            }
        }
    }

    /// The request to reinforce the best tour, with the levels that its
    /// steps carry now.
    fn reinforce(&self) -> (action: Action)
        requires
            self@.wf(),
            self@.best.len() > 0,
        ensures
            action@ == reinforce_request(self@),
    {
        let tour: Vec<usize> = copy_cities(&self.best_solution);
        let levels: Vec<Scalar> = self.pheromones.along(&tour);
        Action::Reinforce { tour, cost: self.best_cost, levels }
    }

    /// Begins a generation.
    fn start(&mut self) -> (r: Result<Action, AcsError>)
        requires
            old(self)@.wf(),
        ensures
            step_ensures(old(self)@, Event::Start, final(self)@, r),
    {
        if self.phase != Phase::Idle {
            return Err(AcsError::UnexpectedEvent);
        }
        if self.size == 0 {
            if self.best_solution.len() == 0 {
                return Err(AcsError::EmptyBestTour);
            }
            let action: Action = self.reinforce();
            self.phase = Phase::Reinforcing;
            return Ok(action);
        }
        if self.distances.size() < 2 {
            return Err(AcsError::InvalidTour);
        }
        let mut visited: Vec<usize> = Vec::new();
        visited.push(self.initial);
        assert(visited@ =~= seq![self.initial]);
        self.visited = visited;
        self.phase = Phase::Selecting;
        Ok(Action::Draw)
    }

    /// Picks the rule for the next step of the ant under way: the greedy one
    /// if the draw is at most the threshold, else the wheel. The candidates
    /// go out with the level and the visibility of the way to each.
    fn pick_rule(&mut self, q: Scalar) -> (r: Result<Action, AcsError>)
        requires
            old(self)@.wf(),
        ensures
            step_ensures(old(self)@, Event::Draw(q), final(self)@, r),
    {
        if self.phase != Phase::Selecting {
            return Err(AcsError::UnexpectedEvent);
        }
        match q.at_most(self.q0) {
            Err(e) => Err(e),
            Ok(exploit) => {
                let n: usize = self.distances.size();
                let from: usize = self.visited[self.visited.len() - 1];
                let candidates: Vec<usize> = candidates(&self.visited, n);
                proof {
                    lemma_unvisited_below(self.visited@, n as nat);
                }
                let pheromone: Vec<Scalar> = self.pheromones.pick(from, &candidates);
                let visibility: Vec<Scalar> = self.visibility.pick(from, &candidates);
                self.phase = Phase::Scoring { exploit };
                Ok(Action::Score { exploit, from, candidates, pheromone, visibility })
            },
        }
    }

    /// Lets the ant under way enter `city` and asks for the new level of
    /// the way it took.
    fn enter(&mut self, city: usize) -> (action: Action)
        requires
            old(self)@.wf(),
            old(self)@.phase is Scoring,
            old(self)@.candidates().contains(city),
        ensures
            final(self)@ == after_choice(old(self)@, city),
            action@ == deposit_request(old(self)@, city),
    {
        proof {
            lemma_fits_bounded(self@.n);
            lemma_unvisited_below(self.visited@, self@.n);
        }
        let from: usize = self.visited[self.visited.len() - 1];
        let level: Scalar = self.pheromones.get(from, city);
        self.visited.push(city);
        self.phase = Phase::Depositing;
        Action::Deposit { from, to: city, level }
    }

    /// The greedy step: the ant under way enters the candidate whose score
    /// is greatest.
    fn intensification(&mut self, scores: Vec<Scalar>) -> (r: Result<Action, AcsError>)
        requires
            old(self)@.wf(),
        ensures
            step_ensures(old(self)@, Event::Scores(scores), final(self)@, r),
    {
        if self.phase != (Phase::Scoring { exploit: true }) {
            return Err(AcsError::UnexpectedEvent);
        }
        let candidates: Vec<usize> = candidates(&self.visited, self.distances.size());
        match select_intensified(&candidates, &scores) {
            Err(e) => Err(e),
            Ok(city) => Ok(self.enter(city)),
        }
    }

    /// The step by the wheel: the ant under way enters the candidate at
    /// which the running sum of the shares first reaches the draw.
    fn diversification(&mut self, total: Scalar, cumulative: Vec<Scalar>, draw: Scalar) -> (r: Result<
        Action,
        AcsError,
    >)
        requires
            old(self)@.wf(),
        ensures
            step_ensures(old(self)@, Event::Wheel { total, cumulative, draw }, final(self)@, r),
    {
        if self.phase != (Phase::Scoring { exploit: false }) {
            return Err(AcsError::UnexpectedEvent);
        }
        let candidates: Vec<usize> = candidates(&self.visited, self.distances.size());
        match select_diversified(&candidates, total, &cumulative, draw) {
            Err(e) => Err(e),
            Ok(city) => Ok(self.enter(city)),
        }
    }

    /// Lays the new level on the way that the ant under way took last, then
    /// asks for the cost of its tour if that is finished, else for the next
    /// draw.
    fn deposit(&mut self, level: Scalar) -> (r: Result<Action, AcsError>)
        requires
            old(self)@.wf(),
        ensures
            step_ensures(old(self)@, Event::Deposited(level), final(self)@, r),
    {
        if self.phase != Phase::Depositing {
            return Err(AcsError::UnexpectedEvent);
        }
        let len: usize = self.visited.len();
        let from: usize = self.visited[len - 2];
        let to: usize = self.visited[len - 1];
        match local_update(&mut self.pheromones, from, to, level) {
            Err(e) => {
                return Err(e);
            },
            Ok(()) => {},
        }
        if len == self.distances.size() {
            self.phase = Phase::Measuring;
            let tour: Vec<usize> = copy_cities(&self.visited);
            let lengths: Vec<Scalar> = self.distances.along(&tour);
            Ok(Action::Measure { tour, lengths })
        } else {
            self.phase = Phase::Selecting;
            Ok(Action::Draw)
        }
    }

    /// Records the tour of the ant under way with its cost, makes it the
    /// best tour if it is strictly cheaper than the best so far, and sends
    /// out the next ant or, after the last one, asks for the new levels of
    /// the best tour.
    fn record(&mut self, cost: Scalar) -> (r: Result<Action, AcsError>)
        requires
            old(self)@.wf(),
        ensures
            step_ensures(old(self)@, Event::Cost(cost), final(self)@, r),
    {
        if self.phase != Phase::Measuring {
            return Err(AcsError::UnexpectedEvent);
        }
        if cost.is_nan() {
            return Err(AcsError::InvalidCost);
        }
        let better: bool = if self.best_solution.len() == 0 {
            true
        } else {
            match cost.below(self.best_cost) {
                Ok(b) => b,
                Err(_) => false,
            }
        };
        let tour: Vec<usize> = copy_cities(&self.visited);
        if better {
            self.best_solution = copy_cities(&tour);
            self.best_cost = cost;
        }
        proof {
            assert(tours_view(self.solutions@.push((tour, cost))) =~= tours_view(self.solutions@).push(
                (tour@, cost),
            ));
        }
        self.solutions.push((tour, cost));
        if self.solutions.len() < self.size {
            let mut visited: Vec<usize> = Vec::new();
            visited.push(self.initial);
            assert(visited@ =~= seq![self.initial]);
            self.visited = visited;
            self.phase = Phase::Selecting;
            Ok(Action::Draw)
        } else {
            self.visited = Vec::new();
            self.phase = Phase::Reinforcing;
            proof {
                lemma_fits_bounded(old(self)@.n);
                lemma_next_wf(old(self)@, Event::Cost(cost));
                assert(self.visited@ =~= Seq::empty());
            }
            Ok(self.reinforce())
        }
    }

    /// Lays the new levels on the steps of the best tour, ends the
    /// generation and hands out its tours.
    fn update_pheromones(&mut self, levels: Vec<Scalar>) -> (r: Result<Action, AcsError>)
        requires
            old(self)@.wf(),
        ensures
            step_ensures(old(self)@, Event::Reinforced(levels), final(self)@, r),
    {
        if self.phase != Phase::Reinforcing {
            return Err(AcsError::UnexpectedEvent);
        }
        match global_update(&mut self.pheromones, &self.best_solution, &levels) {
            Err(e) => Err(e),
            Ok(()) => {
                self.phase = Phase::Idle;
                let mut solutions: Vec<(Vec<usize>, Scalar)> = Vec::new();
                std::mem::swap(&mut self.solutions, &mut solutions);
                proof {
                    assert(tours_view(self.solutions@) =~= Seq::empty());
                }
                Ok(Action::Finished { solutions })
            },
        }
    }
}

} // verus!
