use vstd::prelude::*;
use crate::chance::{chance, pick_up_to};
use crate::genome::{genome_to_number, number_of, Genome, GENOME_LENGTH};
use crate::standing::{GENERATION_SIZE, POPULATION_SIZE};

verus! {

/// The child of two genomes: even positions from `p1`, odd ones from `p2`.
pub open spec fn crossover(p1: Seq<bool>, p2: Seq<bool>) -> Seq<bool> {
    Seq::new(GENOME_LENGTH as nat, |i: int| if i % 2 == 0 { p1[i] } else { p2[i] })
}

/// `g` with gene `i` flipped.
pub open spec fn flipped(g: Seq<bool>, i: int) -> Seq<bool> {
    g.update(i, !g[i])
}

/// A mutation is either none or the position of the gene it flips.
pub open spec fn valid_mutation(m: Option<usize>) -> bool {
    m matches Some(i) ==> i < GENOME_LENGTH
}

/// The child of `p1` and `p2` under the mutation `m`.
pub open spec fn child_of(p1: Seq<bool>, p2: Seq<bool>, m: Option<usize>) -> Seq<bool> {
    match m {
        None => crossover(p1, p2),
        Some(i) => flipped(crossover(p1, p2), i as int),
    }
}

/// `next` is the population bred from the fittest genomes `old` under the
/// mutations `muts`: the parents, encoded, then the child of each parent
/// and the next one round the list, encoded.
pub open spec fn is_next_generation(old: Seq<Genome>, muts: Seq<Option<usize>>, next: Seq<u8>) -> bool {
    &&& next.len() == POPULATION_SIZE
    &&& forall|i: int| 0 <= i < GENERATION_SIZE ==> #[trigger] next[i] == number_of(old[i]@)
    &&& forall|i: int|
        0 <= i < GENERATION_SIZE ==> #[trigger] next[i + GENERATION_SIZE] == number_of(
            child_of(old[i]@, old[(i + 1) % (GENERATION_SIZE as int)]@, muts[i]),
        )
}

/// Flips gene `i`.
pub fn flip_gene(gene: &mut Genome, i: usize)
    requires
        i < GENOME_LENGTH,
    ensures
        final(gene)@ == flipped(old(gene)@, i as int),
{
    gene[i] = !gene[i];
}

/// Flips one gene, chosen uniformly at random.
pub fn mutate(gene: &mut Genome)
    ensures
        exists|i: int| 0 <= i < GENOME_LENGTH && final(gene)@ == flipped(old(gene)@, i),
{
    let i = pick_up_to(GENOME_LENGTH - 1);
    flip_gene(gene, i);
}

/// The child of two genomes under a given mutation.
pub fn breed(p1: &Genome, p2: &Genome, mutation: Option<usize>) -> (child: Genome)
    requires
        valid_mutation(mutation),
    ensures
        child@ == child_of(p1@, p2@, mutation),
{
    let mut child = [false; GENOME_LENGTH];
    let mut i: usize = 0;
    while i < GENOME_LENGTH
        invariant
            i <= GENOME_LENGTH,
            child@.len() == GENOME_LENGTH,
            forall|k: int| 0 <= k < i ==> child@[k] == crossover(p1@, p2@)[k],
        decreases GENOME_LENGTH - i,
    {
        if i % 2 == 0 {
            child[i] = p1[i];
        } else {
            child[i] = p2[i];
        }
        i += 1;
    }
    assert(child@ =~= crossover(p1@, p2@));
    match mutation {
        Some(m) => flip_gene(&mut child, m),
        None => {},
    }
    child
}

/// Draws the mutation of one child: none, or with probability one in ten a
/// gene position chosen uniformly.
fn draw_mutation() -> (m: Option<usize>)
    ensures
        valid_mutation(m),
{
    if chance(1, 10) {
        Some(pick_up_to(GENOME_LENGTH - 1))
    } else {
        None
    }
}

/// The child of two genomes: even positions from `p1`, odd ones from `p2`,
/// then with probability one in ten one gene flipped.
pub fn reproduce(p1: &Genome, p2: &Genome) -> (child: Genome)
    ensures
        exists|m: Option<usize>| valid_mutation(m) && child@ == child_of(p1@, p2@, m),
{
    let m = draw_mutation();
    breed(p1, p2, m)
}

/// The next population from the fittest genomes, under given mutations.
pub fn next_generation(old_gen: &Vec<Genome>, mutations: &Vec<Option<usize>>) -> (next: Vec<u8>)
    requires
        old_gen.len() == GENERATION_SIZE,
        mutations.len() == GENERATION_SIZE,
        forall|i: int| 0 <= i < GENERATION_SIZE ==> valid_mutation(#[trigger] mutations@[i]),
    ensures
        is_next_generation(old_gen@, mutations@, next@),
        forall|i: int| 0 <= i < POPULATION_SIZE ==> #[trigger] next@[i] <= 31,
{
    let mut next: Vec<u8> = Vec::new();
    let mut i: usize = 0;
    while i < GENERATION_SIZE
        invariant
            i <= GENERATION_SIZE,
            old_gen.len() == GENERATION_SIZE,
            next.len() == i,
            forall|k: int| 0 <= k < i ==> #[trigger] next@[k] == number_of(old_gen@[k]@),
            forall|k: int| 0 <= k < i ==> #[trigger] next@[k] <= 31,
        decreases GENERATION_SIZE - i,
    {
        next.push(genome_to_number(&old_gen[i]));
        i += 1;
    }
    let mut i: usize = 0;
    while i < GENERATION_SIZE
        invariant
            i <= GENERATION_SIZE,
            old_gen.len() == GENERATION_SIZE,
            mutations.len() == GENERATION_SIZE,
            forall|k: int| 0 <= k < GENERATION_SIZE ==> valid_mutation(#[trigger] mutations@[k]),
            next.len() == GENERATION_SIZE + i,
            forall|k: int| 0 <= k < GENERATION_SIZE ==> #[trigger] next@[k] == number_of(old_gen@[k]@),
            forall|k: int|
                0 <= k < i ==> #[trigger] next@[k + GENERATION_SIZE] == number_of(
                    child_of(old_gen@[k]@, old_gen@[(k + 1) % (GENERATION_SIZE as int)]@, mutations@[k]),
                ),
            forall|k: int| 0 <= k < GENERATION_SIZE + i ==> #[trigger] next@[k] <= 31,
        decreases GENERATION_SIZE - i,
    {
        let parent1 = &old_gen[i];
        let parent2 = &old_gen[(i + 1) % GENERATION_SIZE];
        let child = breed(parent1, parent2, mutations[i]);
        next.push(genome_to_number(&child));
        proof {
            assert(next@[i + GENERATION_SIZE] == number_of(child@));
        }
        i += 1;
    }
    next
}

/// The next population from the fittest genomes: the parents, then the
/// child of each parent and the next one round the list, each child
/// mutated with probability one in ten; every genome encoded as an integer.
pub fn get_new_generation(old_gen: Vec<Genome>) -> (next: Vec<u8>)
    requires
        old_gen.len() == GENERATION_SIZE,
    ensures
        next.len() == POPULATION_SIZE,
        forall|i: int| 0 <= i < POPULATION_SIZE ==> #[trigger] next@[i] <= 31,
        exists|muts: Seq<Option<usize>>|
            muts.len() == GENERATION_SIZE && (forall|i: int|
                0 <= i < GENERATION_SIZE ==> valid_mutation(#[trigger] muts[i]))
                && is_next_generation(old_gen@, muts, next@),
{
    let mut mutations: Vec<Option<usize>> = Vec::new();
    let mut i: usize = 0;
    while i < GENERATION_SIZE
        invariant
            i <= GENERATION_SIZE,
            mutations.len() == i,
            forall|k: int| 0 <= k < i ==> valid_mutation(#[trigger] mutations@[k]),
        decreases GENERATION_SIZE - i,
    {
        mutations.push(draw_mutation());
        i += 1;
    }
    let next = next_generation(&old_gen, &mutations);
    assert(is_next_generation(old_gen@, mutations@, next@));
    next
}

/// Without mutation, the child takes its even-indexed genes from the first
/// parent and its odd-indexed genes from the second.
pub proof fn lemma_crossover_positions(p1: Seq<bool>, p2: Seq<bool>, i: int)
    requires
        0 <= i < GENOME_LENGTH,
    ensures
        i % 2 == 0 ==> child_of(p1, p2, None)[i] == p1[i],
        i % 2 == 1 ==> child_of(p1, p2, None)[i] == p2[i],
{
}

/// Every population bred from ten genomes holds twenty encodings, each in
/// `[0, 31]`.
pub proof fn lemma_generation_size(old: Seq<Genome>, muts: Seq<Option<usize>>, next: Seq<u8>)
    requires
        old.len() == GENERATION_SIZE,
        muts.len() == GENERATION_SIZE,
        forall|i: int| 0 <= i < GENERATION_SIZE ==> valid_mutation(#[trigger] muts[i]),
        is_next_generation(old, muts, next),
    ensures
        next.len() == POPULATION_SIZE,
        forall|i: int| 0 <= i < POPULATION_SIZE ==> #[trigger] next[i] <= 31,
{
    assert forall|i: int| 0 <= i < POPULATION_SIZE implies #[trigger] next[i] <= 31 by {
        if i < GENERATION_SIZE {
            crate::genome::lemma_decode_encode(old[i]@);
        } else {
            let k = i - GENERATION_SIZE;
            assert(next[k + GENERATION_SIZE] == next[i]);
            let c = child_of(old[k]@, old[(k + 1) % (GENERATION_SIZE as int)]@, muts[k]);
            crate::genome::lemma_decode_encode(c);
        }
    }
}

} // verus!
