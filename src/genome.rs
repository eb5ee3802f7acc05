use vstd::prelude::*;

verus! {

/// Number of genes in a genome.
pub const GENOME_LENGTH: usize = 5;

/// A conditional strategy: gene 0 is the opening move, genes 1 to 4 the
/// answer to the previous round's (own, other) moves, in the order
/// (Cooperate, Cooperate), (Cooperate, Defect), (Defect, Cooperate),
/// (Defect, Defect). A `true` gene cooperates.
pub type Genome = [bool; 5];

/// Value of gene `i` in the integer encoding: the genome is read most
/// significant bit first.
pub open spec fn gene_weight(i: int) -> u8 {
    if i == 0 {
        16
    } else if i == 1 {
        8
    } else if i == 2 {
        4
    } else if i == 3 {
        2
    } else {
        1
    }
}

/// The genes that an integer encodes: gene `i` is bit `4 - i` of `n`.
pub open spec fn genes_of(n: u8) -> Seq<bool> {
    seq![n & 16 != 0, n & 8 != 0, n & 4 != 0, n & 2 != 0, n & 1 != 0]
}

/// The integer that encodes a five-gene sequence.
pub open spec fn number_of(g: Seq<bool>) -> int {
    (if g[0] { 16int } else { 0int }) + (if g[1] { 8int } else { 0int }) + (if g[2] {
        4int
    } else {
        0int
    }) + (if g[3] { 2int } else { 0int }) + (if g[4] { 1int } else { 0int })
}

/// Sum of the weights of the true genes from position `i` on.
spec fn suffix_value(g: Seq<bool>, i: int) -> int
    decreases 5 - i,
{
    if i >= 5 {
        0
    } else {
        (if g[i] { gene_weight(i) as int } else { 0int }) + suffix_value(g, i + 1)
    }
}

proof fn lemma_suffix_value_whole(g: Seq<bool>)
    ensures
        suffix_value(g, 0) == number_of(g),
{
    reveal_with_fuel(suffix_value, 6);
}

/// Decodes a population entry into its genome. Only the low five bits of
/// `n` are read.
pub fn number_to_genome(n: u8) -> (genome: Genome)
    ensures
        genome@ == genes_of(n),
{
    let mut genome = [false; GENOME_LENGTH];
    let mut mask: u8 = 1;
    let mut i: usize = GENOME_LENGTH;
    while i > 0
        invariant
            i <= GENOME_LENGTH,
            genome@.len() == GENOME_LENGTH,
            i > 0 ==> mask == gene_weight(i - 1),
            forall|k: int| i <= k < 5 ==> genome@[k] == (n & gene_weight(k) != 0),
            forall|k: int| 0 <= k < i ==> !genome@[k],
        decreases i,
    {
        i -= 1;
        if n & mask != 0 {
            genome[i] = true;
        }
        if i > 0 {
            assert(mask << 1 == gene_weight(i - 1)) by {
                assert(1u8 << 1u8 == 2u8) by (bit_vector);
                assert(2u8 << 1u8 == 4u8) by (bit_vector);
                assert(4u8 << 1u8 == 8u8) by (bit_vector);
                assert(8u8 << 1u8 == 16u8) by (bit_vector);
            }
            mask = mask << 1;
        }
    }
    assert(genome@ =~= genes_of(n));
    genome
}

/// Encodes a genome as an integer in `[0, 31]`.
pub fn genome_to_number(g: &Genome) -> (n: u8)
    ensures
        n as int == number_of(g@),
        n <= 31,
{
    let mut acc: u8 = 0;
    let mut weight: u8 = 1;
    let mut i: usize = GENOME_LENGTH;
    while i > 0
        invariant
            i <= GENOME_LENGTH,
            g@.len() == GENOME_LENGTH,
            i > 0 ==> weight == gene_weight(i - 1),
            acc as int == suffix_value(g@, i as int),
            acc < (if i > 0 { gene_weight(i - 1) as int } else { 32int }),
        decreases i,
    {
        i -= 1;
        if g[i] {
            acc += weight;
        }
        if i > 0 {
            weight = weight * 2;
        }
    }
    proof {
        lemma_suffix_value_whole(g@);
    }
    acc
}

/// Decoding the encoding of a genome gives the genome back.
pub proof fn lemma_decode_encode(g: Seq<bool>)
    requires
        g.len() == GENOME_LENGTH,
    ensures
        0 <= number_of(g) <= 31,
        genes_of(number_of(g) as u8) == g,
{
    let (b0, b1, b2, b3, b4) = (g[0], g[1], g[2], g[3], g[4]);
    let v: u8 = number_of(g) as u8;
    assert(v as int == number_of(g));
    assert((v & 16 != 0) == b0 && (v & 8 != 0) == b1 && (v & 4 != 0) == b2 && (v & 2 != 0) == b3
        && (v & 1 != 0) == b4) by (bit_vector)
        requires
            v as int == (if b0 { 16u8 } else { 0u8 }) + (if b1 { 8u8 } else { 0u8 }) + (if b2 {
                4u8
            } else {
                0u8
            }) + (if b3 { 2u8 } else { 0u8 }) + (if b4 { 1u8 } else { 0u8 }),
    ;
    assert(genes_of(v) =~= g);
}

/// Encoding the decoding of an integer in `[0, 31]` gives the integer back.
pub proof fn lemma_encode_decode(n: u8)
    requires
        n <= 31,
    ensures
        number_of(genes_of(n)) == n,
{
    assert((if n & 16 != 0 { 16u8 } else { 0u8 }) + (if n & 8 != 0 { 8u8 } else { 0u8 }) + (if n
        & 4 != 0 {
        4u8
    } else {
        0u8
    }) + (if n & 2 != 0 { 2u8 } else { 0u8 }) + (if n & 1 != 0 { 1u8 } else { 0u8 }) == n as int)
        by (bit_vector)
        requires
            n <= 31,
    ;
}

} // verus!
