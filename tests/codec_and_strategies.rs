use gametheory::{
    evil, genome_to_number, good_tit_for_tat, naive, nand, number_to_genome,
    opposite_tit_for_tat, prisoners_dillemma_rules, sus_tit_for_tat, xnor, xor, Decision,
    Strategy,
};

use Decision::{Cooperate, Defect};

const HISTORIES: [(Option<Decision>, Option<Decision>); 5] = [
    (None, None),
    (Some(Cooperate), Some(Cooperate)),
    (Some(Cooperate), Some(Defect)),
    (Some(Defect), Some(Cooperate)),
    (Some(Defect), Some(Defect)),
];

#[test]
fn encode_of_decode_is_identity_on_five_bits() {
    for n in 0u8..32 {
        assert_eq!(genome_to_number(&number_to_genome(n)), n);
    }
}

#[test]
fn decode_of_encode_is_identity_on_genomes() {
    for bits in 0u8..32 {
        let g = [
            bits & 16 != 0,
            bits & 8 != 0,
            bits & 4 != 0,
            bits & 2 != 0,
            bits & 1 != 0,
        ];
        assert_eq!(number_to_genome(genome_to_number(&g)), g);
    }
}

#[test]
fn opening_cooperate_then_defect_genome_is_sixteen() {
    let g = [true, false, false, false, false];
    assert_eq!(genome_to_number(&g), 16);
    assert_eq!(number_to_genome(16), g);
}

#[test]
fn decode_reads_most_significant_bit_first() {
    assert_eq!(number_to_genome(1), [false, false, false, false, true]);
    assert_eq!(number_to_genome(10), [false, true, false, true, false]);
    assert_eq!(number_to_genome(31), [true; 5]);
    assert_eq!(number_to_genome(0), [false; 5]);
    assert_eq!(genome_to_number(&[false, true, true, false, true]), 13);
}

#[test]
fn decode_ignores_high_bits() {
    assert_eq!(number_to_genome(32 + 5), number_to_genome(5));
}

#[test]
fn complement_swaps_moves() {
    assert_eq!(!Cooperate, Defect);
    assert_eq!(!Defect, Cooperate);
}

#[test]
fn prisoners_dilemma_table() {
    assert_eq!(prisoners_dillemma_rules(&Cooperate, &Cooperate), (-1, -1));
    assert_eq!(prisoners_dillemma_rules(&Cooperate, &Defect), (-3, 0));
    assert_eq!(prisoners_dillemma_rules(&Defect, &Cooperate), (0, -3));
    assert_eq!(prisoners_dillemma_rules(&Defect, &Defect), (-2, -2));
}

#[test]
fn tit_for_tat_variants() {
    assert_eq!(good_tit_for_tat(None, None), Cooperate);
    assert_eq!(sus_tit_for_tat(None, None), Defect);
    assert_eq!(opposite_tit_for_tat(None, None), Defect);
    for own in [Cooperate, Defect] {
        for other in [Cooperate, Defect] {
            assert_eq!(good_tit_for_tat(Some(own), Some(other)), other);
            assert_eq!(sus_tit_for_tat(Some(own), Some(other)), other);
            assert_eq!(opposite_tit_for_tat(Some(own), Some(other)), !other);
        }
    }
}

#[test]
fn logic_tables() {
    let xor_expected = [Cooperate, Defect, Cooperate, Cooperate, Defect];
    let xnor_expected = [Cooperate, Cooperate, Defect, Defect, Cooperate];
    let nand_expected = [Defect, Defect, Cooperate, Cooperate, Cooperate];
    for (k, (own, other)) in HISTORIES.iter().enumerate() {
        assert_eq!(xor(*own, *other), xor_expected[k]);
        assert_eq!(xnor(*own, *other), xnor_expected[k]);
        assert_eq!(nand(*own, *other), nand_expected[k]);
    }
}

#[test]
fn deterministic_strategies_repeat_themselves() {
    for (own, other) in HISTORIES {
        assert_eq!(naive(own, other), Cooperate);
        assert_eq!(evil(own, other), Defect);
        assert_eq!(good_tit_for_tat(own, other), good_tit_for_tat(own, other));
        assert_eq!(sus_tit_for_tat(own, other), sus_tit_for_tat(own, other));
        assert_eq!(xor(own, other), xor(own, other));
        assert_eq!(xnor(own, other), xnor(own, other));
        assert_eq!(nand(own, other), nand(own, other));
        assert_eq!(opposite_tit_for_tat(own, other), opposite_tit_for_tat(own, other));
    }
}

#[test]
fn stochastic_strategies_follow_their_draw() {
    for s in [Strategy::Random, Strategy::Bernoulli] {
        assert_eq!(s.decide_with(None, None, true), Cooperate);
        assert_eq!(s.decide_with(Some(Defect), Some(Defect), false), Defect);
    }
    assert_eq!(Strategy::Naive.decide_with(None, None, false), Cooperate);
    assert_eq!(Strategy::Evil.decide_with(None, None, true), Defect);
}

#[test]
fn genome_strategy_looks_up_its_genes() {
    // opening Cooperate; after (C,C) Defect, (C,D) Cooperate, (D,C) Defect, (D,D) Cooperate
    let s = Strategy::Evolved([true, false, true, false, true]);
    let expected = [Cooperate, Defect, Cooperate, Defect, Cooperate];
    for (k, (own, other)) in HISTORIES.iter().enumerate() {
        assert_eq!(s.decide(*own, *other), expected[k]);
    }
}
