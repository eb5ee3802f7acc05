use vstd::prelude::*;

verus! {

/// A move in one round of a two-player game.
#[derive(Clone, Copy, Debug, PartialEq, Eq, Structural)]
pub enum Decision {
    Cooperate,
    Defect,
}

impl Decision {
    /// The other of the two moves.
    pub open spec fn complement(self) -> Decision {
        match self {
            Decision::Cooperate => Decision::Defect,
            Decision::Defect => Decision::Cooperate,
        }
    }

    /// The move that a genome gene stands for: `true` cooperates.
    pub open spec fn of_gene(gene: bool) -> Decision {
        if gene {
            Decision::Cooperate
        } else {
            Decision::Defect
        }
    }

    /// Reads a gene as a move.
    pub fn from_gene(gene: bool) -> (r: Decision)
        ensures
            r == Decision::of_gene(gene),
    {
        if gene {
            Decision::Cooperate
        } else {
            Decision::Defect
        }
    }
}

impl std::ops::Not for Decision {
    type Output = Decision;

    fn not(self) -> (r: Decision)
        ensures
            r == self.complement(),
    {
        match self {
            Decision::Cooperate => Decision::Defect,
            Decision::Defect => Decision::Cooperate,
        }
    }
}

impl vstd::std_specs::ops::NotSpecImpl for Decision {
    open spec fn obeys_not_spec() -> bool {
        true
    }

    open spec fn not_req(self) -> bool {
        true
    }

    open spec fn not_spec(self) -> Decision {
        self.complement()
    }
}

} // verus!
