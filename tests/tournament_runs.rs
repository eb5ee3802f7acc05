use gametheory::{
    breed, get_new_generation, mutate, next_generation, number_to_genome,
    prisoners_dillemma_rules, reproduce, Decision, Genome, Tournament, GENERATION_SIZE,
    NUM_PLAYERS, POPULATION_SIZE,
};

const TRUSTING: usize = 0;
const NAIVE: usize = 2;
const EVIL: usize = 3;
const RANDOM: usize = 4;
const BERNOULLI: usize = 9;

fn population(code: u8) -> Vec<u8> {
    vec![code; POPULATION_SIZE]
}

#[test]
fn naive_against_a_defector_for_one_round() {
    // genome 0 defects always
    let mut t = Tournament::from(1, prisoners_dillemma_rules, population(0));
    t.run();
    for i in 0..POPULATION_SIZE {
        assert_eq!(t.score(NAIVE, i), (0, -3));
    }
}

#[test]
fn evil_against_a_cooperator_for_one_round() {
    // genome 31 cooperates always
    let mut t = Tournament::from(1, prisoners_dillemma_rules, population(31));
    t.run();
    for i in 0..POPULATION_SIZE {
        assert_eq!(t.score(EVIL, i), (-3, 0));
    }
}

#[test]
fn trusting_tit_for_tat_against_a_defector_for_three_rounds() {
    let mut t = Tournament::from(3, prisoners_dillemma_rules, population(0));
    t.run();
    for i in 0..POPULATION_SIZE {
        assert_eq!(t.score(TRUSTING, i), (-4, -7));
    }
}

#[test]
fn scores_start_at_zero_and_names_are_set() {
    let pop: Vec<u8> = (0..20).collect();
    let t = Tournament::from(5, prisoners_dillemma_rules, pop);
    for j in 0..NUM_PLAYERS {
        for i in 0..POPULATION_SIZE {
            assert_eq!(t.score(j, i), (0, 0));
            assert_eq!(t.player(j).prev_move_self(i), None);
            assert_eq!(t.opponent(i).prev_move_other(j), None);
        }
    }
    assert_eq!(t.player(0).strategy_name().as_str(), "trusting\nt4t");
    assert_eq!(t.player(9).strategy_name().as_str(), "Bernoulli");
    assert_eq!(t.opponent(0).strategy_name().as_str(), "0");
    assert_eq!(t.opponent(7).strategy_name().as_str(), "7");
    assert_eq!(t.opponent(16).strategy_name().as_str(), "16");
    assert_eq!(t.iterations_played(), 0);
}

#[test]
fn two_runs_of_k_equal_one_run_of_two_k() {
    let pop: Vec<u8> = (0..20).map(|n| (n * 7 % 32) as u8).collect();
    let mut twice = Tournament::from(4, prisoners_dillemma_rules, pop.clone());
    twice.run();
    twice.run();
    let mut once = Tournament::from(8, prisoners_dillemma_rules, pop);
    once.run();
    assert_eq!(twice.iterations_played(), 8);
    assert_eq!(once.iterations_played(), 8);
    for j in 0..NUM_PLAYERS {
        if j == RANDOM || j == BERNOULLI {
            continue;
        }
        for i in 0..POPULATION_SIZE {
            assert_eq!(twice.score(j, i), once.score(j, i));
        }
    }
}

#[test]
fn memories_agree_after_a_run() {
    let pop: Vec<u8> = (0..20).map(|n| (n + 5) as u8).collect();
    let mut t = Tournament::from(3, prisoners_dillemma_rules, pop);
    t.run();
    for j in 0..NUM_PLAYERS {
        for i in 0..POPULATION_SIZE {
            let p = t.player(j);
            let o = t.opponent(i);
            assert!(p.prev_move_self(i).is_some());
            assert_eq!(p.prev_move_other(i), o.prev_move_self(j));
            assert_eq!(p.prev_move_self(i), o.prev_move_other(j));
        }
    }
    // the naive player's last move is always Cooperate
    assert_eq!(t.player(NAIVE).prev_move_self(4), Some(Decision::Cooperate));
}

#[test]
fn selection_ranks_by_fitness_with_ties_in_population_order() {
    let pop: Vec<u8> = (0..20).map(|n| n as u8).collect();
    let mut t = Tournament::from(10, prisoners_dillemma_rules, pop.clone());
    t.run();
    let fitness: Vec<i32> = (0..POPULATION_SIZE)
        .map(|i| (0..NUM_PLAYERS).map(|j| t.score(j, i).0).sum())
        .collect();
    let mut order: Vec<usize> = (0..POPULATION_SIZE).collect();
    order.sort_by(|a, b| fitness[*b].cmp(&fitness[*a]));
    let (leaders, best) = t.select_ten_fittest_and_bestscore();
    assert_eq!(leaders.len(), GENERATION_SIZE);
    assert_eq!(best, *fitness.iter().max().unwrap());
    for k in 0..GENERATION_SIZE {
        assert_eq!(leaders[k], number_to_genome(pop[order[k]]));
    }
}

#[test]
fn selection_of_equal_opponents_keeps_population_order() {
    let mut t = Tournament::from(2, prisoners_dillemma_rules, population(31));
    t.run();
    let (leaders, best) = t.select_ten_fittest_and_bestscore();
    assert_eq!(leaders.len(), GENERATION_SIZE);
    for g in &leaders {
        assert_eq!(*g, [true; 5]);
    }
    let expected: i32 = (0..POPULATION_SIZE)
        .map(|i| (0..NUM_PLAYERS).map(|j| t.score(j, i).0).sum::<i32>())
        .max()
        .unwrap();
    assert_eq!(best, expected);
}

#[test]
fn run_limits_are_reported() {
    let t = Tournament::from(100, prisoners_dillemma_rules, population(3));
    assert!(t.can_run());
    let huge = Tournament::from(u32::MAX, prisoners_dillemma_rules, population(3));
    assert!(!huge.can_run());
}

#[test]
fn crossover_takes_even_genes_from_the_first_parent() {
    let p1: Genome = [true, true, true, true, true];
    let p2: Genome = [false, false, false, false, false];
    assert_eq!(breed(&p1, &p2, None), [true, false, true, false, true]);
    assert_eq!(breed(&p2, &p1, None), [false, true, false, true, false]);
    assert_eq!(breed(&p1, &p2, Some(1)), [true, true, true, false, true]);
    assert_eq!(breed(&p1, &p2, Some(4)), [true, false, true, false, false]);
}

#[test]
fn reproduce_mutates_at_most_one_gene() {
    let p1: Genome = [true, false, false, true, true];
    let p2: Genome = [false, true, true, false, false];
    let crossed = breed(&p1, &p2, None);
    for _ in 0..200 {
        let child = reproduce(&p1, &p2);
        let differing = (0..5).filter(|&k| child[k] != crossed[k]).count();
        assert!(differing <= 1);
    }
}

#[test]
fn mutate_flips_exactly_one_gene() {
    for _ in 0..50 {
        let original: Genome = [true, false, true, false, true];
        let mut g = original;
        mutate(&mut g);
        let differing = (0..5).filter(|&k| g[k] != original[k]).count();
        assert_eq!(differing, 1);
    }
}

#[test]
fn new_generation_has_twenty_five_bit_members() {
    let parents: Vec<Genome> = (0..10u8).map(|n| number_to_genome(n * 3)).collect();
    let next = get_new_generation(parents.clone());
    assert_eq!(next.len(), POPULATION_SIZE);
    for (k, code) in next.iter().enumerate() {
        assert!(*code <= 31);
        if k < GENERATION_SIZE {
            assert_eq!(*code, k as u8 * 3);
        }
    }
}

#[test]
fn new_generation_without_mutation_is_the_crossovers() {
    let parents: Vec<Genome> = (0..10u8).map(|n| number_to_genome(n * 3 + 1)).collect();
    let next = next_generation(&parents, &vec![None; 10]);
    assert_eq!(next.len(), POPULATION_SIZE);
    // parents 1 (00001) and 4 (00100): child takes genes 0, 2, 4 from the first
    // and 1, 3 from the second: 00001
    assert_eq!(next[10], 1);
    // parents 28 (11100) and 1 (00001): 10100 with genes 1 and 3 from the
    // second parent, 0: 10100 = 20
    assert_eq!(next[19], 20);
    let mutated = next_generation(&parents, &vec![Some(0); 10]);
    assert_eq!(mutated[10], 17);
    for k in 0..GENERATION_SIZE {
        assert_eq!(mutated[k], next[k]);
    }
}
