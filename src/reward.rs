use vstd::prelude::*;
use crate::decision::Decision;

verus! {

/// The Prisoner's Dilemma payoffs of the two players, in the order of their
/// moves.
pub open spec fn dilemma_payoff(a: Decision, b: Decision) -> (i32, i32) {
    match (a, b) {
        (Decision::Cooperate, Decision::Cooperate) => (-1i32, -1i32),
        (Decision::Cooperate, Decision::Defect) => (-3i32, 0i32),
        (Decision::Defect, Decision::Cooperate) => (0i32, -3i32),
        (Decision::Defect, Decision::Defect) => (-2i32, -2i32),
    }
}

/// The Prisoner's Dilemma reward rule.
pub fn prisoners_dillemma_rules(p1move: &Decision, p2move: &Decision) -> (r: (i32, i32))
    ensures
        r == dilemma_payoff(*p1move, *p2move),
{
    match (p1move, p2move) {
        (Decision::Cooperate, Decision::Cooperate) => (-1, -1),
        (Decision::Cooperate, Decision::Defect) => (-3, 0),
        (Decision::Defect, Decision::Cooperate) => (0, -3),
        (Decision::Defect, Decision::Defect) => (-2, -2),
    }
}

/// Magnitude of a payoff.
pub open spec fn magnitude(x: i32) -> int {
    if x < 0 {
        -(x as int)
    } else {
        x as int
    }
}

/// The larger magnitude of a pair of payoffs.
fn max_magnitude(p: (i32, i32)) -> (r: u32)
    ensures
        r == (if magnitude(p.0) > magnitude(p.1) { magnitude(p.0) } else { magnitude(p.1) }),
{
    let a: u32 = if p.0 < 0 { (-(p.0 as i64)) as u32 } else { p.0 as u32 };
    let b: u32 = if p.1 < 0 { (-(p.1 as i64)) as u32 } else { p.1 as u32 };
    if a > b { a } else { b }
}

/// A reward rule as a table: the payoffs of the two players for each pair
/// of moves.
#[derive(Clone, Copy, Debug)]
pub struct RewardTable {
    pub both_cooperate: (i32, i32),
    pub cooperate_defect: (i32, i32),
    pub defect_cooperate: (i32, i32),
    pub both_defect: (i32, i32),
}

impl RewardTable {
    /// The payoffs for the moves `a` and `b`, in that order.
    pub open spec fn payoff(self, a: Decision, b: Decision) -> (i32, i32) {
        match (a, b) {
            (Decision::Cooperate, Decision::Cooperate) => self.both_cooperate,
            (Decision::Cooperate, Decision::Defect) => self.cooperate_defect,
            (Decision::Defect, Decision::Cooperate) => self.defect_cooperate,
            (Decision::Defect, Decision::Defect) => self.both_defect,
        }
    }

    /// Every payoff of the table has magnitude at most `m`.
    pub open spec fn bounded_by(self, m: int) -> bool {
        forall|a: Decision, b: Decision|
            magnitude(#[trigger] self.payoff(a, b).0) <= m && magnitude(self.payoff(a, b).1) <= m
    }

    /// The largest magnitude of a payoff in the table, and at least one: the
    /// most that one round can move a score.
    pub open spec fn scale(self) -> int {
        let m1 = if magnitude(self.both_cooperate.0) > magnitude(self.both_cooperate.1) {
            magnitude(self.both_cooperate.0)
        } else {
            magnitude(self.both_cooperate.1)
        };
        let m2 = if magnitude(self.cooperate_defect.0) > magnitude(self.cooperate_defect.1) {
            magnitude(self.cooperate_defect.0)
        } else {
            magnitude(self.cooperate_defect.1)
        };
        let m3 = if magnitude(self.defect_cooperate.0) > magnitude(self.defect_cooperate.1) {
            magnitude(self.defect_cooperate.0)
        } else {
            magnitude(self.defect_cooperate.1)
        };
        let m4 = if magnitude(self.both_defect.0) > magnitude(self.both_defect.1) {
            magnitude(self.both_defect.0)
        } else {
            magnitude(self.both_defect.1)
        };
        let m12 = if m1 > m2 { m1 } else { m2 };
        let m34 = if m3 > m4 { m3 } else { m4 };
        let m = if m12 > m34 { m12 } else { m34 };
        if m > 1 { m } else { 1 }
    }

    /// The table's scale.
    pub fn scale_of(&self) -> (r: u32)
        ensures
            r == self.scale(),
    {
        let m1 = max_magnitude(self.both_cooperate);
        let m2 = max_magnitude(self.cooperate_defect);
        let m3 = max_magnitude(self.defect_cooperate);
        let m4 = max_magnitude(self.both_defect);
        let m12 = if m1 > m2 { m1 } else { m2 };
        let m34 = if m3 > m4 { m3 } else { m4 };
        let m = if m12 > m34 { m12 } else { m34 };
        if m > 1 { m } else { 1 }
    }

    /// The payoffs for the moves `a` and `b`.
    pub fn reward(&self, a: &Decision, b: &Decision) -> (r: (i32, i32))
        ensures
            r == self.payoff(*a, *b),
    {
        match (a, b) {
            (Decision::Cooperate, Decision::Cooperate) => self.both_cooperate,
            (Decision::Cooperate, Decision::Defect) => self.cooperate_defect,
            (Decision::Defect, Decision::Cooperate) => self.defect_cooperate,
            (Decision::Defect, Decision::Defect) => self.both_defect,
        }
    }

    /// Tabulates a pure reward rule over the four pairs of moves.
    pub fn tabulate<F: Fn(&Decision, &Decision) -> (i32, i32)>(rules: F) -> (t: RewardTable)
        requires
            forall|a: Decision, b: Decision| rules.requires((&a, &b)),
        ensures
            forall|a: Decision, b: Decision| rules.ensures((&a, &b), #[trigger] t.payoff(a, b)),
    {
        let both_cooperate = rules(&Decision::Cooperate, &Decision::Cooperate);
        let cooperate_defect = rules(&Decision::Cooperate, &Decision::Defect);
        let defect_cooperate = rules(&Decision::Defect, &Decision::Cooperate);
        let both_defect = rules(&Decision::Defect, &Decision::Defect);
        let t = RewardTable { both_cooperate, cooperate_defect, defect_cooperate, both_defect };
        assert forall|a: Decision, b: Decision| rules.ensures((&a, &b), #[trigger] t.payoff(a, b)) by {
            match (a, b) {
                (Decision::Cooperate, Decision::Cooperate) => {},
                (Decision::Cooperate, Decision::Defect) => {},
                (Decision::Defect, Decision::Cooperate) => {},
                (Decision::Defect, Decision::Defect) => {},
            }
        }
        t
    }

    /// Every payoff lies within the table's scale.
    pub proof fn lemma_scale_bounds(self)
        ensures
            self.scale() >= 1,
            self.bounded_by(self.scale()),
    {
    }
}

} // verus!
