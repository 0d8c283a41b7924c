use ant_colony::error::AcsError;
use ant_colony::matrix::Matrix;
use ant_colony::pheromone::check_level;
use ant_colony::scalar::Scalar;
use ant_colony::state::{Action, Event, Phase};
use ant_colony::system::{AntProps, AntSystem};

fn num(x: f64) -> Scalar {
    Scalar::from_bits(x.to_bits())
}

fn val(s: Scalar) -> f64 {
    f64::from_bits(s.to_bits())
}

fn table(rows: &[Vec<f64>]) -> Matrix {
    let rows: Vec<Vec<Scalar>> = rows.iter().map(|r| r.iter().map(|x| num(*x)).collect()).collect();
    Matrix::from_rows(&rows).unwrap()
}

fn reciprocals(rows: &[Vec<f64>]) -> Vec<Vec<f64>> {
    rows.iter().map(|r| r.iter().map(|x| 1.0 / x).collect()).collect()
}

struct Rules {
    alpha: f64,
    beta: f64,
    rho: f64,
    q: f64,
    q0: f64,
    phi: f64,
    tau0: f64,
}

fn rules(q0: f64) -> Rules {
    Rules { alpha: 1.0, beta: 1.0, rho: 0.5, q: 1.0, q0, phi: 0.5, tau0: 0.1 }
}

fn colony(size: usize, initial: usize, rules: &Rules, rows: &[Vec<f64>]) -> Result<AntSystem, AcsError> {
    let props = AntProps {
        alpha: num(rules.alpha),
        beta: num(rules.beta),
        rho: num(rules.rho),
        q: num(rules.q),
        q0: num(rules.q0),
        phi: num(rules.phi),
        initial_pheromone: num(rules.tau0),
        distances: table(rows),
    };
    assert!(initial < rows.len());
    assert!(check_level(num(rules.tau0)));
    AntSystem::new(size, initial, props, table(&reciprocals(rows)))
}

fn serve(action: &Action, rules: &Rules, draws: &mut dyn FnMut() -> f64) -> Event {
    match action {
        Action::Draw => Event::Draw(num(draws())),
        Action::Score { exploit, pheromone, visibility, .. } => {
            if *exploit {
                let scores = pheromone
                    .iter()
                    .zip(visibility.iter())
                    .map(|(t, v)| num(val(*t) * val(*v).powf(rules.beta)))
                    .collect();
                Event::Scores(scores)
            } else {
                let weights: Vec<f64> = pheromone
                    .iter()
                    .zip(visibility.iter())
                    .map(|(t, v)| val(*t).powf(rules.alpha) * val(*v).powf(rules.beta))
                    .collect();
                let total = weights.iter().fold(0.0, |acc, w| acc + w);
                let mut acc = 0.0;
                let mut cumulative = Vec::new();
                for w in &weights {
                    acc += w / total;
                    cumulative.push(num(acc));
                }
                Event::Wheel { total: num(total), cumulative, draw: num(draws()) }
            }
        }
        Action::Deposit { level, .. } => {
            Event::Deposited(num((1.0 - rules.phi) * val(*level) + rules.phi * rules.tau0))
        }
        Action::Measure { lengths, .. } => {
            Event::Cost(num(lengths.iter().fold(0.0, |acc, l| acc + val(*l))))
        }
        Action::Reinforce { cost, levels, .. } => Event::Reinforced(
            levels
                .iter()
                .map(|t| num((1.0 - rules.rho) * val(*t) + rules.rho * (rules.q / val(*cost))))
                .collect(),
        ),
        Action::Finished { .. } => Event::Start,
    }
}

fn generation(
    system: &mut AntSystem,
    rules: &Rules,
    draws: &mut dyn FnMut() -> f64,
) -> Result<Vec<(Vec<usize>, f64)>, AcsError> {
    let solutions = system.run(|action| serve(action, rules, draws))?;
    Ok(solutions.into_iter().map(|(t, c)| (t, val(c))).collect())
}

fn generation_by_steps(
    system: &mut AntSystem,
    rules: &Rules,
    draws: &mut dyn FnMut() -> f64,
) -> Result<Vec<(Vec<usize>, f64)>, AcsError> {
    let mut action = system.step(Event::Start)?;
    loop {
        if let Action::Finished { solutions } = action {
            return Ok(solutions.into_iter().map(|(t, c)| (t, val(c))).collect());
        }
        let event = serve(&action, rules, draws);
        action = system.step(event)?;
    }
}

fn given_distances() -> Vec<Vec<f64>> {
    vec![
        vec![0.0, 2.0, 9.0, 10.0],
        vec![1.0, 0.0, 6.0, 4.0],
        vec![15.0, 7.0, 0.0, 8.0],
        vec![6.0, 3.0, 12.0, 0.0],
    ]
}

fn symmetric_distances() -> Vec<Vec<f64>> {
    vec![
        vec![0.0, 2.0, 9.0, 10.0],
        vec![2.0, 0.0, 6.0, 4.0],
        vec![9.0, 6.0, 0.0, 8.0],
        vec![10.0, 4.0, 8.0, 0.0],
    ]
}

fn ten_cities() -> Vec<Vec<f64>> {
    let flat = [
        0, 12, 3, 23, 1, 5, 23, 56, 12, 11, //
        12, 0, 9, 18, 3, 41, 45, 5, 41, 27, //
        3, 9, 0, 89, 56, 21, 12, 48, 14, 29, //
        23, 18, 89, 0, 87, 46, 75, 17, 50, 42, //
        1, 3, 56, 87, 0, 55, 22, 86, 14, 33, //
        5, 41, 21, 46, 55, 0, 21, 76, 54, 81, //
        23, 45, 12, 75, 22, 21, 0, 11, 57, 48, //
        56, 5, 48, 17, 86, 76, 11, 0, 63, 24, //
        12, 41, 14, 50, 14, 54, 57, 63, 0, 9, //
        11, 27, 29, 42, 33, 81, 48, 24, 9, 0, //
    ];
    flat.chunks(10).map(|r| r.iter().map(|v| f64::from(*v)).collect()).collect()
}

/// A small generator of numbers in the unit interval, the same for the same seed.
fn stream(seed: u64) -> impl FnMut() -> f64 {
    let mut state = seed;
    move || {
        state = state.wrapping_mul(6364136223846793005).wrapping_add(1442695040888963407);
        ((state >> 11) as f64) / ((1u64 << 53) as f64)
    }
}

fn is_permutation(tour: &[usize], n: usize, initial: usize) -> bool {
    let mut seen = vec![false; n];
    for c in tour {
        if *c >= n || seen[*c] {
            return false;
        }
        seen[*c] = true;
    }
    tour.len() == n && tour[0] == initial
}

#[test]
fn greedy_ant_walks_the_given_four_cities() {
    let rules = rules(1.0);
    let mut system = colony(1, 0, &rules, &given_distances()).unwrap();
    let mut draws = stream(1);
    let solutions = generation(&mut system, &rules, &mut draws).unwrap();
    assert_eq!(solutions.len(), 1);
    assert_eq!(solutions[0].0, vec![0, 1, 3, 2]);
    assert_eq!(solutions[0].1, 2.0 + 4.0 + 12.0);
    assert_eq!(system.best_solution(), &vec![0, 1, 3, 2]);
    assert_eq!(system.best_cost().map(val), Some(18.0));
}

#[test]
fn greedy_ant_walks_the_symmetric_four_cities() {
    let rules = rules(1.0);
    let mut system = colony(1, 0, &rules, &symmetric_distances()).unwrap();
    let mut draws = stream(1);
    let solutions = generation(&mut system, &rules, &mut draws).unwrap();
    assert_eq!(solutions, vec![(vec![0, 1, 3, 2], 14.0)]);
    assert_eq!(system.best_cost().map(val), Some(14.0));
}

#[test]
fn greedy_steps_hand_out_what_the_rules_take() {
    let rules = rules(1.0);
    let mut system = colony(1, 0, &rules, &symmetric_distances()).unwrap();
    assert_eq!(system.phase(), Phase::Idle);
    assert_eq!(system.step(Event::Start), Ok(Action::Draw));
    assert_eq!(system.phase(), Phase::Selecting);
    let action = system.step(Event::Draw(num(0.25))).unwrap();
    assert_eq!(
        action,
        Action::Score {
            exploit: true,
            from: 0,
            candidates: vec![1, 2, 3],
            pheromone: vec![num(0.1), num(0.1), num(0.1)],
            visibility: vec![num(1.0 / 2.0), num(1.0 / 9.0), num(1.0 / 10.0)],
        }
    );
    assert_eq!(system.phase(), Phase::Scoring { exploit: true });
    let action = system.step(Event::Scores(vec![num(0.05), num(0.1 / 9.0), num(0.01)])).unwrap();
    assert_eq!(action, Action::Deposit { from: 0, to: 1, level: num(0.1) });
    assert_eq!(system.phase(), Phase::Depositing);
    assert_eq!(system.step(Event::Deposited(num(0.07))), Ok(Action::Draw));
    assert_eq!(system.pheromones().get(0, 1), num(0.07));
    assert_eq!(system.pheromones().get(1, 0), num(0.1));
    let action = system.step(Event::Draw(num(0.9))).unwrap();
    assert_eq!(
        action,
        Action::Score {
            exploit: true,
            from: 1,
            candidates: vec![2, 3],
            pheromone: vec![num(0.1), num(0.1)],
            visibility: vec![num(1.0 / 6.0), num(1.0 / 4.0)],
        }
    );
}

#[test]
fn a_draw_above_the_threshold_turns_the_wheel() {
    let rules = rules(0.5);
    let mut system = colony(1, 0, &rules, &symmetric_distances()).unwrap();
    system.step(Event::Start).unwrap();
    let action = system.step(Event::Draw(num(0.75))).unwrap();
    match action {
        Action::Score { exploit, candidates, .. } => {
            assert!(!exploit);
            assert_eq!(candidates, vec![1, 2, 3]);
        }
        other => panic!("{:?}", other),
    }
    assert_eq!(system.phase(), Phase::Scoring { exploit: false });
    let wheel = Event::Wheel {
        total: num(0.5),
        cumulative: vec![num(0.2), num(0.7), num(1.0)],
        draw: num(0.7),
    };
    assert_eq!(system.step(wheel), Ok(Action::Deposit { from: 0, to: 2, level: num(0.1) }));
}

#[test]
fn a_draw_equal_to_the_threshold_is_greedy() {
    let rules = rules(0.5);
    let mut system = colony(1, 0, &rules, &symmetric_distances()).unwrap();
    system.step(Event::Start).unwrap();
    match system.step(Event::Draw(num(0.5))).unwrap() {
        Action::Score { exploit, .. } => assert!(exploit),
        other => panic!("{:?}", other),
    }
}

#[test]
fn levels_after_one_greedy_generation() {
    let rules = rules(1.0);
    let mut system = colony(1, 0, &rules, &symmetric_distances()).unwrap();
    let mut draws = stream(7);
    generation(&mut system, &rules, &mut draws).unwrap();
    let local = (1.0 - 0.5) * 0.1 + 0.5 * 0.1;
    let global = (1.0 - 0.5) * local + 0.5 * (1.0 / 14.0);
    let field = system.pheromones();
    for (r, c) in [(0, 1), (1, 3), (3, 2)] {
        assert_eq!(val(field.get(r, c)), global);
    }
    for r in 0..4 {
        for c in 0..4 {
            if r == c {
                assert_eq!(field.get(r, c).to_bits(), 0);
            } else if ![(0, 1), (1, 3), (3, 2)].contains(&(r, c)) {
                assert_eq!(val(field.get(r, c)), 0.1);
            }
        }
    }
    assert_eq!(system.phase(), Phase::Idle);
}

#[test]
fn every_tour_is_a_permutation_from_the_initial_city() {
    let rules = rules(0.5);
    let mut system = colony(10, 3, &rules, &ten_cities()).unwrap();
    let mut draws = stream(2024);
    for _ in 0..20 {
        let solutions = generation(&mut system, &rules, &mut draws).unwrap();
        assert_eq!(solutions.len(), 10);
        for (tour, cost) in &solutions {
            assert!(is_permutation(tour, 10, 3));
            assert!(*cost > 0.0);
        }
        assert!(is_permutation(system.best_solution(), 10, 3));
    }
}

#[test]
fn best_cost_never_rises_and_is_the_least_seen() {
    let rules = rules(0.5);
    let mut system = colony(10, 3, &rules, &ten_cities()).unwrap();
    let mut draws = stream(99);
    let mut least = f64::INFINITY;
    let mut last_best = f64::INFINITY;
    for _ in 0..30 {
        let solutions = generation(&mut system, &rules, &mut draws).unwrap();
        for (_, cost) in &solutions {
            if *cost < least {
                least = *cost;
            }
        }
        let best = system.best_cost().map(val).unwrap();
        assert!(best <= last_best);
        assert_eq!(best, least);
        last_best = best;
    }
}

#[test]
fn the_first_of_two_equally_cheap_tours_stays_best() {
    let rules = rules(1.0);
    let mut system = colony(2, 0, &rules, &symmetric_distances()).unwrap();
    system.step(Event::Start).unwrap();
    let mut walk = |system: &mut AntSystem, picks: [usize; 3]| {
        for pick in picks {
            let action = system.step(Event::Draw(num(0.0))).unwrap();
            let scores = match action {
                Action::Score { candidates, .. } => candidates
                    .iter()
                    .map(|c| num(if *c == pick { 1.0 } else { 0.0 }))
                    .collect(),
                other => panic!("{:?}", other),
            };
            system.step(Event::Scores(scores)).unwrap();
            system.step(Event::Deposited(num(0.1))).unwrap();
        }
    };
    walk(&mut system, [1, 2, 3]);
    assert_eq!(system.step(Event::Cost(num(5.0))), Ok(Action::Draw));
    walk(&mut system, [3, 2, 1]);
    let action = system.step(Event::Cost(num(5.0))).unwrap();
    assert_eq!(
        action,
        Action::Reinforce {
            tour: vec![0, 1, 2, 3],
            cost: num(5.0),
            levels: vec![num(0.1), num(0.1), num(0.1)],
        }
    );
    let done = system.step(Event::Reinforced(vec![num(0.3), num(0.4), num(0.5)])).unwrap();
    assert_eq!(
        done,
        Action::Finished {
            solutions: vec![(vec![0, 1, 2, 3], num(5.0)), (vec![0, 3, 2, 1], num(5.0))],
        }
    );
    assert_eq!(system.pheromones().get(0, 1), num(0.3));
    assert_eq!(system.pheromones().get(1, 2), num(0.4));
    assert_eq!(system.pheromones().get(2, 3), num(0.5));
    assert_eq!(system.pheromones().get(3, 2), num(0.1));
    assert_eq!(system.best_solution(), &vec![0, 1, 2, 3]);
}

#[test]
fn a_cheaper_tour_of_a_later_generation_becomes_best() {
    let rules = rules(1.0);
    let mut system = colony(1, 0, &rules, &symmetric_distances()).unwrap();
    let mut costs = vec![num(3.0), num(7.0), num(9.0)];
    let mut bests = Vec::new();
    while let Some(cost) = costs.pop() {
        let mut action = system.step(Event::Start).unwrap();
        loop {
            let event = match &action {
                Action::Measure { .. } => Event::Cost(cost),
                Action::Finished { .. } => break,
                other => serve(other, &rules, &mut stream(5)),
            };
            action = system.step(event).unwrap();
        }
        bests.push(system.best_cost().map(val).unwrap());
    }
    assert_eq!(bests, vec![9.0, 7.0, 3.0]);
}

#[test]
fn the_same_draws_give_the_same_run() {
    let rules = rules(0.5);
    let mut runs = Vec::new();
    for _ in 0..2 {
        let mut system = colony(5, 3, &rules, &ten_cities()).unwrap();
        let mut draws = stream(31337);
        let mut all = Vec::new();
        for _ in 0..10 {
            all.push(generation(&mut system, &rules, &mut draws).unwrap());
        }
        runs.push((all, system.pheromones().to_rows()));
    }
    assert_eq!(runs[0], runs[1]);
}

#[test]
fn later_ants_see_the_levels_that_earlier_ants_left() {
    let rules = rules(1.0);
    let mut system = colony(2, 0, &rules, &symmetric_distances()).unwrap();
    system.step(Event::Start).unwrap();
    for level in [0.9, 0.8, 0.7] {
        let action = system.step(Event::Draw(num(0.0))).unwrap();
        let scores = serve(&action, &rules, &mut stream(1));
        system.step(scores).unwrap();
        system.step(Event::Deposited(num(level))).unwrap();
    }
    system.step(Event::Cost(num(14.0))).unwrap();
    match system.step(Event::Draw(num(0.0))).unwrap() {
        Action::Score { pheromone, .. } => {
            assert_eq!(pheromone, vec![num(0.9), num(0.1), num(0.1)])
        }
        other => panic!("{:?}", other),
    }
}

#[test]
fn a_zero_distance_between_two_cities_is_refused() {
    let mut rows = symmetric_distances();
    rows[2][1] = 0.0;
    assert_eq!(colony(1, 0, &rules(1.0), &rows).err(), Some(AcsError::InvalidDistance));
}

#[test]
fn distances_that_are_negative_or_not_finite_are_refused() {
    for bad in [-0.0, -1.0, f64::INFINITY, f64::NEG_INFINITY, f64::NAN] {
        let mut rows = symmetric_distances();
        rows[0][3] = bad;
        assert_eq!(colony(1, 0, &rules(1.0), &rows).err(), Some(AcsError::InvalidDistance));
    }
}

#[test]
fn the_diagonal_of_the_distances_is_not_looked_at() {
    for odd in [0.0, -3.0, f64::NAN, f64::INFINITY] {
        let mut rows = symmetric_distances();
        for i in 0..4 {
            rows[i][i] = odd;
        }
        let rules = rules(1.0);
        let mut system = colony(1, 0, &rules, &rows).unwrap();
        let solutions = generation(&mut system, &rules, &mut stream(3)).unwrap();
        assert_eq!(solutions, vec![(vec![0, 1, 3, 2], 14.0)]);
    }
}

#[test]
fn a_new_colony_carries_the_initial_level_off_the_diagonal() {
    let system = colony(3, 2, &rules(0.5), &symmetric_distances()).unwrap();
    assert_eq!(system.cities(), 4);
    assert_eq!(system.size(), 3);
    assert_eq!(system.initial(), 2);
    assert_eq!(system.phase(), Phase::Idle);
    assert!(system.best_solution().is_empty());
    assert_eq!(system.best_cost(), None);
    for r in 0..4 {
        for c in 0..4 {
            let expected = if r == c { 0.0 } else { 0.1 };
            assert_eq!(system.pheromones().get(r, c), num(expected));
            if r != c {
                assert_eq!(val(system.visibility().get(r, c)), 1.0 / val(system.distances().get(r, c)));
            }
        }
    }
    assert_eq!(val(system.alpha()), 1.0);
    assert_eq!(val(system.beta()), 1.0);
    assert_eq!(val(system.rho()), 0.5);
    assert_eq!(val(system.q()), 1.0);
    assert_eq!(val(system.q0()), 0.5);
    assert_eq!(val(system.phi()), 0.5);
    assert_eq!(val(system.initial_pheromone()), 0.1);
}

#[test]
fn a_colony_without_ants_has_no_best_tour_to_reinforce() {
    let mut system = colony(0, 0, &rules(1.0), &symmetric_distances()).unwrap();
    assert_eq!(system.step(Event::Start), Err(AcsError::EmptyBestTour));
    assert_eq!(system.phase(), Phase::Idle);
}

#[test]
fn a_single_city_makes_no_tour_with_a_cost() {
    let mut system = colony(1, 0, &rules(1.0), &[vec![0.0]]).unwrap();
    assert_eq!(system.step(Event::Start), Err(AcsError::InvalidTour));
}

#[test]
fn an_event_out_of_turn_is_refused_and_changes_nothing() {
    let rules = rules(1.0);
    let mut system = colony(1, 0, &rules, &symmetric_distances()).unwrap();
    assert_eq!(system.step(Event::Draw(num(0.5))), Err(AcsError::UnexpectedEvent));
    assert_eq!(system.step(Event::Cost(num(1.0))), Err(AcsError::UnexpectedEvent));
    assert_eq!(system.step(Event::Deposited(num(1.0))), Err(AcsError::UnexpectedEvent));
    assert_eq!(system.step(Event::Scores(vec![])), Err(AcsError::UnexpectedEvent));
    assert_eq!(system.step(Event::Reinforced(vec![])), Err(AcsError::UnexpectedEvent));
    assert_eq!(system.phase(), Phase::Idle);
    system.step(Event::Start).unwrap();
    assert_eq!(system.step(Event::Start), Err(AcsError::UnexpectedEvent));
    system.step(Event::Draw(num(0.5))).unwrap();
    let wheel = Event::Wheel { total: num(1.0), cumulative: vec![num(1.0); 3], draw: num(0.5) };
    assert_eq!(system.step(wheel), Err(AcsError::UnexpectedEvent));
    assert_eq!(system.step(Event::Scores(vec![num(1.0)])), Err(AcsError::UnexpectedEvent));
    assert_eq!(system.phase(), Phase::Scoring { exploit: true });
    let mut draws = stream(1);
    let mut action = system.step(Event::Scores(vec![num(3.0), num(2.0), num(1.0)])).unwrap();
    loop {
        if let Action::Reinforce { .. } = action {
            break;
        }
        action = system.step(serve(&action, &rules, &mut draws)).unwrap();
    }
    assert_eq!(system.step(Event::Reinforced(vec![num(0.1)])), Err(AcsError::UnexpectedEvent));
    assert_eq!(system.phase(), Phase::Reinforcing);
}

#[test]
fn numbers_that_are_no_numbers_are_refused() {
    let rules = rules(1.0);
    let mut system = colony(1, 0, &rules, &symmetric_distances()).unwrap();
    system.step(Event::Start).unwrap();
    assert_eq!(system.step(Event::Draw(num(f64::NAN))), Err(AcsError::InvalidCost));
    assert_eq!(system.phase(), Phase::Selecting);
    system.step(Event::Draw(num(0.5))).unwrap();
    let scores = Event::Scores(vec![num(1.0), num(f64::NAN), num(0.5)]);
    assert_eq!(system.step(scores), Err(AcsError::InvalidCost));
    let mut draws = stream(1);
    let mut action = system.step(Event::Scores(vec![num(1.0), num(2.0), num(0.5)])).unwrap();
    loop {
        if let Action::Measure { .. } = action {
            break;
        }
        action = system.step(serve(&action, &rules, &mut draws)).unwrap();
    }
    assert_eq!(system.step(Event::Cost(num(f64::NAN))), Err(AcsError::InvalidCost));
    assert_eq!(system.phase(), Phase::Measuring);
}

#[test]
fn weights_that_sum_to_nothing_are_refused() {
    let rules = rules(0.0);
    for total in [0.0, -0.0, f64::INFINITY, f64::NAN] {
        let mut system = colony(1, 0, &rules, &symmetric_distances()).unwrap();
        system.step(Event::Start).unwrap();
        system.step(Event::Draw(num(0.5))).unwrap();
        let wheel = Event::Wheel {
            total: num(total),
            cumulative: vec![num(0.2), num(0.7), num(1.0)],
            draw: num(0.5),
        };
        assert_eq!(system.step(wheel), Err(AcsError::DegenerateDistribution));
        assert_eq!(system.phase(), Phase::Scoring { exploit: false });
    }
}

#[test]
fn a_generation_is_the_same_step_by_step() {
    let rules = rules(0.5);
    let mut whole = colony(4, 3, &rules, &ten_cities()).unwrap();
    let mut stepped = colony(4, 3, &rules, &ten_cities()).unwrap();
    let mut draws_whole = stream(11);
    let mut draws_stepped = stream(11);
    for _ in 0..5 {
        let a = generation(&mut whole, &rules, &mut draws_whole).unwrap();
        let b = generation_by_steps(&mut stepped, &rules, &mut draws_stepped).unwrap();
        assert_eq!(a, b);
        assert_eq!(whole.pheromones().to_rows(), stepped.pheromones().to_rows());
        assert_eq!(whole.best_solution(), stepped.best_solution());
        assert_eq!(whole.best_cost(), stepped.best_cost());
        assert_eq!(whole.phase(), Phase::Idle);
    }
}

#[test]
fn a_generation_stops_at_the_first_refusal() {
    let rules = rules(1.0);
    let mut system = colony(2, 0, &rules, &symmetric_distances()).unwrap();
    let mut asked = 0;
    let outcome = system.run(|action| {
        asked += 1;
        match action {
            Action::Measure { .. } => Event::Cost(num(f64::NAN)),
            other => serve(other, &rules, &mut stream(1)),
        }
    });
    assert_eq!(outcome, Err(AcsError::InvalidCost));
    assert_eq!(asked, 10);
    assert_eq!(system.phase(), Phase::Measuring);
    assert_eq!(system.run(|_| Event::Start), Err(AcsError::UnexpectedEvent));
    assert_eq!(system.phase(), Phase::Measuring);
}

#[test]
fn a_generation_without_ants_asks_for_nothing() {
    let mut system = colony(0, 0, &rules(1.0), &symmetric_distances()).unwrap();
    let mut asked = 0;
    let outcome = system.run(|_| {
        asked += 1;
        Event::Start
    });
    assert_eq!(outcome, Err(AcsError::EmptyBestTour));
    assert_eq!(asked, 0);
}

#[test]
fn levels_never_fall_below_zero() {
    let rules = rules(0.5);
    let mut system = colony(6, 3, &rules, &ten_cities()).unwrap();
    let mut draws = stream(4242);
    for _ in 0..15 {
        generation(&mut system, &rules, &mut draws).unwrap();
        for row in system.pheromones().to_rows() {
            for level in row {
                assert!(val(level) >= 0.0);
            }
        }
        for i in 0..10 {
            assert_eq!(system.pheromones().get(i, i).to_bits(), 0);
        }
    }
}

#[test]
fn a_visibility_that_is_not_finite_and_above_zero_is_refused() {
    let rows = symmetric_distances();
    let rules = rules(1.0);
    for bad in [0.0, -0.25, f64::INFINITY, f64::NAN] {
        let mut visibility = reciprocals(&rows);
        visibility[1][3] = bad;
        let props = AntProps {
            alpha: num(rules.alpha),
            beta: num(rules.beta),
            rho: num(rules.rho),
            q: num(rules.q),
            q0: num(rules.q0),
            phi: num(rules.phi),
            initial_pheromone: num(rules.tau0),
            distances: table(&rows),
        };
        let outcome = AntSystem::new(1, 0, props, table(&visibility));
        assert_eq!(outcome.err(), Some(AcsError::InvalidDistance));
    }
}

#[test]
fn a_distance_too_small_to_have_a_finite_reciprocal_is_refused() {
    let mut rows = symmetric_distances();
    rows[0][2] = 5e-324;
    assert_eq!(colony(1, 0, &rules(1.0), &rows).err(), Some(AcsError::InvalidDistance));
}

#[test]
fn a_level_that_is_no_level_is_refused_and_changes_nothing() {
    let rules = rules(1.0);
    let mut system = colony(1, 0, &rules, &symmetric_distances()).unwrap();
    let mut draws = stream(1);
    let mut action = system.step(Event::Start).unwrap();
    loop {
        if let Action::Deposit { .. } = action {
            break;
        }
        action = system.step(serve(&action, &rules, &mut draws)).unwrap();
    }
    let before = system.pheromones().to_rows();
    for bad in [-0.5, f64::INFINITY, f64::NAN] {
        assert_eq!(system.step(Event::Deposited(num(bad))), Err(AcsError::InvalidCost));
        assert_eq!(system.phase(), Phase::Depositing);
        assert_eq!(system.pheromones().to_rows(), before);
    }
    loop {
        if let Action::Reinforce { .. } = action {
            break;
        }
        action = system.step(serve(&action, &rules, &mut draws)).unwrap();
    }
    let before = system.pheromones().to_rows();
    for bad in [-0.5, f64::INFINITY, f64::NAN] {
        let levels = vec![num(0.1), num(bad), num(0.1)];
        assert_eq!(system.step(Event::Reinforced(levels)), Err(AcsError::InvalidCost));
        assert_eq!(system.phase(), Phase::Reinforcing);
        assert_eq!(system.pheromones().to_rows(), before);
    }
}

#[test]
fn a_generation_fails_with_the_failure_of_the_answer_that_was_refused() {
    let rules = rules(1.0);
    let mut system = colony(1, 0, &rules, &symmetric_distances()).unwrap();
    let outcome = system.run(|action| match action {
        Action::Deposit { .. } => Event::Deposited(num(-1.0)),
        other => serve(other, &rules, &mut stream(1)),
    });
    assert_eq!(outcome, Err(AcsError::InvalidCost));
    assert_eq!(system.phase(), Phase::Depositing);
    let mut system = colony(1, 0, &rules, &symmetric_distances()).unwrap();
    let outcome = system.run(|action| match action {
        Action::Score { .. } => Event::Cost(num(1.0)),
        other => serve(other, &rules, &mut stream(1)),
    });
    assert_eq!(outcome, Err(AcsError::UnexpectedEvent));
    assert_eq!(system.phase(), Phase::Scoring { exploit: true });
}

#[test]
fn the_best_tour_is_the_first_cheapest_of_a_first_generation() {
    let rules = rules(0.0);
    let mut system = colony(4, 0, &rules, &symmetric_distances()).unwrap();
    let mut draws = stream(77);
    let costs = [9.0, 7.0, 7.0, 8.0];
    let mut measured = 0;
    let solutions = system
        .run(|action| match action {
            Action::Measure { .. } => {
                measured += 1;
                Event::Cost(num(costs[measured - 1]))
            }
            other => serve(other, &rules, &mut draws),
        })
        .unwrap();
    assert_eq!(solutions.len(), 4);
    assert_eq!(system.best_solution(), &solutions[1].0);
    assert_eq!(system.best_cost().map(val), Some(7.0));
    let costs = [7.0, 6.5, 6.0, 6.0];
    let mut measured = 0;
    let solutions = system
        .run(|action| match action {
            Action::Measure { .. } => {
                measured += 1;
                Event::Cost(num(costs[measured - 1]))
            }
            other => serve(other, &rules, &mut draws),
        })
        .unwrap();
    assert_eq!(system.best_solution(), &solutions[2].0);
    assert_eq!(system.best_cost().map(val), Some(6.0));
    let old_best = system.best_solution().clone();
    let costs = [6.0, 9.0, 6.0, 8.0];
    let mut measured = 0;
    system
        .run(|action| match action {
            Action::Measure { .. } => {
                measured += 1;
                Event::Cost(num(costs[measured - 1]))
            }
            other => serve(other, &rules, &mut draws),
        })
        .unwrap();
    assert_eq!(system.best_solution(), &old_best);
    assert_eq!(system.best_cost().map(val), Some(6.0));
}

#[test]
fn a_generation_asks_once_for_each_of_its_events() {
    let rules = rules(0.5);
    for (size, rows) in [(3, symmetric_distances()), (5, ten_cities()), (1, symmetric_distances())] {
        let n = rows.len();
        let mut system = colony(size, 0, &rules, &rows).unwrap();
        let mut draws = stream(8);
        let (mut asked, mut drawn, mut scored, mut laid, mut measured, mut reinforced) =
            (0, 0, 0, 0, 0, 0);
        let solutions = system
            .run(|action| {
                asked += 1;
                match action {
                    Action::Draw => drawn += 1,
                    Action::Score { .. } => scored += 1,
                    Action::Deposit { .. } => laid += 1,
                    Action::Measure { .. } => measured += 1,
                    Action::Reinforce { .. } => reinforced += 1,
                    Action::Finished { .. } => panic!("nothing is asked after the end"),
                }
                serve(action, &rules, &mut draws)
            })
            .unwrap();
        assert_eq!(solutions.len(), size);
        assert_eq!(drawn, size * (n - 1));
        assert_eq!(scored, size * (n - 1));
        assert_eq!(laid, size * (n - 1));
        assert_eq!(measured, size);
        assert_eq!(reinforced, 1);
        assert_eq!(asked, 1 + size * (3 * (n - 1) + 1));
    }
}

#[test]
fn a_colony_can_be_cloned_and_goes_its_own_way() {
    let rules = rules(1.0);
    let mut system = colony(1, 0, &rules, &symmetric_distances()).unwrap();
    let fresh = system.clone();
    generation(&mut system, &rules, &mut stream(1)).unwrap();
    assert!(fresh.best_solution().is_empty());
    assert_eq!(fresh.phase(), Phase::Idle);
    assert_eq!(val(fresh.pheromones().get(0, 1)), 0.1);
    assert_eq!(system.best_solution(), &vec![0, 1, 3, 2]);
    let mut twin = fresh.clone();
    let solutions = generation(&mut twin, &rules, &mut stream(1)).unwrap();
    assert_eq!(solutions, vec![(vec![0, 1, 3, 2], 14.0)]);
    assert_eq!(twin.pheromones().to_rows(), system.pheromones().to_rows());
    assert!(format!("{:?}", twin).contains("best_solution"));
}
