use vstd::prelude::*;
use crate::chance::chance;
use crate::decision::Decision;
use crate::genome::Genome;
use std::ops::Not;

verus! {

/// A history is consistent when both previous moves are known or neither
/// is: a first encounter has no history on either side.
pub open spec fn history_consistent(own: Option<Decision>, other: Option<Decision>) -> bool {
    own.is_some() == other.is_some()
}

/// Opens with `opening`, then repeats the opponent's previous move.
pub open spec fn mirror(opening: Decision, other: Option<Decision>) -> Decision {
    match other {
        None => opening,
        Some(d) => d,
    }
}

/// Opens with `opening`; afterwards answers the previous (own, other) moves
/// from the table `cc`, `cd`, `dc`, `dd`.
pub open spec fn respond(
    own: Option<Decision>,
    other: Option<Decision>,
    opening: Decision,
    cc: Decision,
    cd: Decision,
    dc: Decision,
    dd: Decision,
) -> Decision {
    match (own, other) {
        (Some(Decision::Cooperate), Some(Decision::Cooperate)) => cc,
        (Some(Decision::Cooperate), Some(Decision::Defect)) => cd,
        (Some(Decision::Defect), Some(Decision::Cooperate)) => dc,
        (Some(Decision::Defect), Some(Decision::Defect)) => dd,
        _ => opening,
    }
}

/// The strategy that a genome encodes.
pub open spec fn genome_rule(g: Seq<bool>, own: Option<Decision>, other: Option<Decision>) -> Decision {
    respond(
        own,
        other,
        Decision::of_gene(g[0]),
        Decision::of_gene(g[1]),
        Decision::of_gene(g[2]),
        Decision::of_gene(g[3]),
        Decision::of_gene(g[4]),
    )
}

/// The "and" table: cooperates after mutual cooperation only.
pub open spec fn and_rule(own: Option<Decision>, other: Option<Decision>) -> Decision {
    respond(
        own,
        other,
        Decision::Cooperate,
        Decision::Cooperate,
        Decision::Defect,
        Decision::Defect,
        Decision::Defect,
    )
}

/// The "xor" table: defects after equal moves, cooperates after unequal ones.
pub open spec fn xor_rule(own: Option<Decision>, other: Option<Decision>) -> Decision {
    respond(
        own,
        other,
        Decision::Cooperate,
        Decision::Defect,
        Decision::Cooperate,
        Decision::Cooperate,
        Decision::Defect,
    )
}

/// The "xnor" table: cooperates after equal moves, defects after unequal ones.
pub open spec fn xnor_rule(own: Option<Decision>, other: Option<Decision>) -> Decision {
    respond(
        own,
        other,
        Decision::Cooperate,
        Decision::Cooperate,
        Decision::Defect,
        Decision::Defect,
        Decision::Cooperate,
    )
}

/// Opens with Cooperate and mirrors the opponent's previous move.
pub fn good_tit_for_tat(_own_prev_move: Option<Decision>, other_prev_move: Option<Decision>) -> (r:
    Decision)
    ensures
        r == mirror(Decision::Cooperate, other_prev_move),
{
    match other_prev_move {
        None => Decision::Cooperate,
        Some(mv) => match mv {
            Decision::Cooperate => Decision::Cooperate,
            Decision::Defect => Decision::Defect,
        },
    }
}

/// Opens with Defect and mirrors the opponent's previous move.
pub fn sus_tit_for_tat(_own_prev_move: Option<Decision>, other_prev_move: Option<Decision>) -> (r:
    Decision)
    ensures
        r == mirror(Decision::Defect, other_prev_move),
{
    match other_prev_move {
        None => Decision::Defect,
        Some(mv) => match mv {
            Decision::Cooperate => Decision::Cooperate,
            Decision::Defect => Decision::Defect,
        },
    }
}

/// Always cooperates.
pub fn naive(_own_prev_move: Option<Decision>, _other_prev_move: Option<Decision>) -> (r: Decision)
    ensures
        r == Decision::Cooperate,
{
    Decision::Cooperate
}

/// Always defects.
pub fn evil(_own_prev_move: Option<Decision>, _other_prev_move: Option<Decision>) -> (r: Decision)
    ensures
        r == Decision::Defect,
{
    Decision::Defect
}

/// Cooperates with probability one half, whatever the history.
pub fn random(_own_prev_move: Option<Decision>, _other_prev_move: Option<Decision>) -> (r:
    Decision) {
    Decision::from_gene(chance(1, 2))
}

/// Opens with Cooperate, then follows the xor table.
pub fn xor(own_prev_move: Option<Decision>, other_prev_move: Option<Decision>) -> (r: Decision)
    requires
        history_consistent(own_prev_move, other_prev_move),
    ensures
        r == xor_rule(own_prev_move, other_prev_move),
{
    match (own_prev_move, other_prev_move) {
        (Some(own_pm), Some(other_pm)) => match (own_pm, other_pm) {
            (Decision::Cooperate, Decision::Cooperate) => Decision::Defect,
            (Decision::Cooperate, Decision::Defect) => Decision::Cooperate,
            (Decision::Defect, Decision::Cooperate) => Decision::Cooperate,
            (Decision::Defect, Decision::Defect) => Decision::Defect,
        },
        _ => Decision::Cooperate,
    }
}

/// The opposite of what trusting tit-for-tat plays.
pub fn opposite_tit_for_tat(own_prev_move: Option<Decision>, other_prev_move: Option<Decision>) -> (r:
    Decision)
    ensures
        r == mirror(Decision::Cooperate, other_prev_move).complement(),
{
    good_tit_for_tat(own_prev_move, other_prev_move).not()
}

/// Opens with Cooperate, then follows the xnor table.
pub fn xnor(own_prev_move: Option<Decision>, other_prev_move: Option<Decision>) -> (r: Decision)
    requires
        history_consistent(own_prev_move, other_prev_move),
    ensures
        r == xnor_rule(own_prev_move, other_prev_move),
{
    match (own_prev_move, other_prev_move) {
        (Some(own_pm), Some(other_pm)) => match (own_pm, other_pm) {
            (Decision::Defect, Decision::Defect) => Decision::Cooperate,
            (Decision::Cooperate, Decision::Defect) => Decision::Defect,
            (Decision::Defect, Decision::Cooperate) => Decision::Defect,
            (Decision::Cooperate, Decision::Cooperate) => Decision::Cooperate,
        },
        _ => Decision::Cooperate,
    }
}

/// Opens with Cooperate, then cooperates only after mutual cooperation.
fn and(own_prev_move: Option<Decision>, other_prev_move: Option<Decision>) -> (r: Decision)
    requires
        history_consistent(own_prev_move, other_prev_move),
    ensures
        r == and_rule(own_prev_move, other_prev_move),
{
    match (own_prev_move, other_prev_move) {
        (Some(own_pm), Some(other_pm)) => match (own_pm, other_pm) {
            (Decision::Cooperate, Decision::Cooperate) => Decision::Cooperate,
            (Decision::Cooperate, Decision::Defect) => Decision::Defect,
            (Decision::Defect, Decision::Cooperate) => Decision::Defect,
            (Decision::Defect, Decision::Defect) => Decision::Defect,
        },
        _ => Decision::Cooperate,
    }
}

/// The opposite of the "and" table, opening included.
pub fn nand(own_prev_move: Option<Decision>, other_prev_move: Option<Decision>) -> (r: Decision)
    requires
        history_consistent(own_prev_move, other_prev_move),
    ensures
        r == and_rule(own_prev_move, other_prev_move).complement(),
{
    and(own_prev_move, other_prev_move).not()
}

/// Cooperates with probability three in ten, whatever the history.
pub fn random_biased(_own_prev_move: Option<Decision>, _other_prev_move: Option<Decision>) -> (r:
    Decision) {
    Decision::from_gene(chance(3, 10))
}

/// Plays the strategy that a genome encodes.
pub fn genome_decide(g: &Genome, own_prev_move: Option<Decision>, other_prev_move: Option<Decision>) -> (r:
    Decision)
    requires
        history_consistent(own_prev_move, other_prev_move),
    ensures
        r == genome_rule(g@, own_prev_move, other_prev_move),
{
    match (own_prev_move, other_prev_move) {
        (Some(own_pm), Some(other_pm)) => match (own_pm, other_pm) {
            (Decision::Cooperate, Decision::Cooperate) => Decision::from_gene(g[1]),
            (Decision::Cooperate, Decision::Defect) => Decision::from_gene(g[2]),
            (Decision::Defect, Decision::Cooperate) => Decision::from_gene(g[3]),
            (Decision::Defect, Decision::Defect) => Decision::from_gene(g[4]),
        },
        _ => Decision::from_gene(g[0]),
    }
}

/// A strategy: one of the ten fixed rules, or the rule a genome encodes.
#[derive(Clone, Copy, Debug)]
pub enum Strategy {
    TrustingTitForTat,
    SuspiciousTitForTat,
    Naive,
    Evil,
    Random,
    Xor,
    OppositeTitForTat,
    Xnor,
    Nand,
    Bernoulli,
    Evolved(Genome),
}

impl Strategy {
    /// The strategies whose move is drawn at random.
    pub open spec fn is_stochastic(self) -> bool {
        self is Random || self is Bernoulli
    }

    /// The move of this strategy on a history; a stochastic strategy
    /// cooperates exactly when `draw` holds, the others ignore `draw`.
    pub open spec fn rule(self, own: Option<Decision>, other: Option<Decision>, draw: bool) -> Decision {
        match self {
            Strategy::TrustingTitForTat => mirror(Decision::Cooperate, other),
            Strategy::SuspiciousTitForTat => mirror(Decision::Defect, other),
            Strategy::Naive => Decision::Cooperate,
            Strategy::Evil => Decision::Defect,
            Strategy::Random => Decision::of_gene(draw),
            Strategy::Xor => xor_rule(own, other),
            Strategy::OppositeTitForTat => mirror(Decision::Cooperate, other).complement(),
            Strategy::Xnor => xnor_rule(own, other),
            Strategy::Nand => and_rule(own, other).complement(),
            Strategy::Bernoulli => Decision::of_gene(draw),
            Strategy::Evolved(g) => genome_rule(g@, own, other),
        }
    }

    /// Plays the strategy with the outcome of its random draw given.
    pub fn decide_with(&self, own: Option<Decision>, other: Option<Decision>, draw: bool) -> (r:
        Decision)
        requires
            history_consistent(own, other),
        ensures
            r == self.rule(own, other, draw),
    {
        match self {
            Strategy::TrustingTitForTat => good_tit_for_tat(own, other),
            Strategy::SuspiciousTitForTat => sus_tit_for_tat(own, other),
            Strategy::Naive => naive(own, other),
            Strategy::Evil => evil(own, other),
            Strategy::Random => Decision::from_gene(draw),
            Strategy::Xor => xor(own, other),
            Strategy::OppositeTitForTat => opposite_tit_for_tat(own, other),
            Strategy::Xnor => xnor(own, other),
            Strategy::Nand => nand(own, other),
            Strategy::Bernoulli => Decision::from_gene(draw),
            Strategy::Evolved(g) => genome_decide(g, own, other),
        }
    }

    /// Plays the strategy; a stochastic one draws its move.
    pub fn decide(&self, own: Option<Decision>, other: Option<Decision>) -> (r: Decision)
        requires
            history_consistent(own, other),
        ensures
            !self.is_stochastic() ==> r == self.rule(own, other, false),
    {
        match self {
            Strategy::Random => random(own, other),
            Strategy::Bernoulli => random_biased(own, other),
            _ => self.decide_with(own, other, false),
        }
    }
}

/// A deterministic strategy's move is a function of the history alone: no
/// draw changes it, so repeated calls on one history agree.
pub proof fn lemma_deterministic_strategy_pure(
    s: Strategy,
    own: Option<Decision>,
    other: Option<Decision>,
    draw1: bool,
    draw2: bool,
)
    requires
        !s.is_stochastic(),
    ensures
        s.rule(own, other, draw1) == s.rule(own, other, draw2),
{
}

} // verus!
