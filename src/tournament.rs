use vstd::prelude::*;
use grid::Grid;
use crate::decision::Decision;
use crate::genome::{genes_of, number_to_genome, Genome};
use crate::panel::{decimal, decimal_name, panel_entry, panel_name, panel_strategy};
use crate::reward::{magnitude, RewardTable};
use crate::score_grid::{grid_cells, grid_get, grid_set, zero_grid};
use crate::standing::{
    blank_memory, cell_bounded, cells_within, column_bounds, fitness, is_fresh, is_leaderboard,
    lemma_play_bounds, lemma_settle_wf, limit_at, memory_agrees, play, play_column, play_round,
    play_rounds, ranks_before, round_shaped, row_total, settle, standing_wf, Mind, Standing,
    GENERATION_SIZE, NUM_PLAYERS, POPULATION_SIZE,
};
use crate::strategy::Strategy;

verus! {

/// A participant: its strategy and, for each counterpart by position, the
/// last move it made (`prev_move_self`) and the last move the counterpart
/// made (`prev_move_other`), `None` before their first round.
pub struct Player {
    prev_move_self: Vec<Option<Decision>>,
    prev_move_other: Vec<Option<Decision>>,
    strategy: Strategy,
    strategy_name: String,
}

impl Player {
    pub closed spec fn mind(&self) -> Mind {
        Mind {
            strategy: self.strategy,
            prev_self: self.prev_move_self@,
            prev_other: self.prev_move_other@,
        }
    }

    pub closed spec fn name(&self) -> Seq<char> {
        self.strategy_name@
    }

    /// The display name.
    pub fn strategy_name(&self) -> (r: &String)
        ensures
            r@ == self.name(),
    {
        &self.strategy_name
    }

    /// The strategy.
    pub fn strategy(&self) -> (r: Strategy)
        ensures
            r == self.mind().strategy,
    {
        self.strategy
    }

    /// The last move this participant made against counterpart `k`.
    pub fn prev_move_self(&self, k: usize) -> (r: Option<Decision>)
        requires
            k < self.mind().prev_self.len(),
        ensures
            r == self.mind().prev_self[k as int],
    {
        self.prev_move_self[k]
    }

    /// The last move counterpart `k` made against this participant.
    pub fn prev_move_other(&self, k: usize) -> (r: Option<Decision>)
        requires
            k < self.mind().prev_other.len(),
        ensures
            r == self.mind().prev_other[k as int],
    {
        self.prev_move_other[k]
    }
}

/// A memory of `n` counterparts, none met yet.
fn blank(n: usize) -> (r: Vec<Option<Decision>>)
    ensures
        r@ == blank_memory(n as nat),
{
    let mut r: Vec<Option<Decision>> = Vec::new();
    let mut k: usize = 0;
    while k < n
        invariant
            k <= n,
            r@ == blank_memory(k as nat),
        decreases n - k,
    {
        r.push(None);
        k += 1;
        assert(r@ =~= blank_memory(k as nat));
    }
    r
}

/// Number of `true` entries.
spec fn count_true(c: Seq<bool>) -> nat
    decreases c.len(),
{
    if c.len() == 0 {
        0
    } else {
        count_true(c.drop_last()) + if c.last() {
            1nat
        } else {
            0nat
        }
    }
}

proof fn lemma_count_true_set(c: Seq<bool>, i: int)
    requires
        0 <= i < c.len(),
        !c[i],
    ensures
        count_true(c.update(i, true)) == count_true(c) + 1,
    decreases c.len(),
{
    let d = c.update(i, true);
    if i == c.len() - 1 {
        assert(d.drop_last() =~= c.drop_last());
    } else {
        assert(d.drop_last() =~= c.drop_last().update(i, true));
        lemma_count_true_set(c.drop_last(), i);
    }
}

proof fn lemma_count_true_missing(c: Seq<bool>)
    requires
        count_true(c) < c.len(),
    ensures
        exists|a: int| 0 <= a < c.len() && !c[a],
    decreases c.len(),
{
    if !c.last() {
        assert(!c[c.len() - 1]);
    } else {
        lemma_count_true_missing(c.drop_last());
        let a = choose|a: int| 0 <= a < c.drop_last().len() && !c.drop_last()[a];
        assert(!c[a]);
    }
}

/// A tournament between the fixed panel and a population of genome-encoded
/// opponents.
pub struct Tournament {
    players: Vec<Player>,
    opponents: Vec<Player>,
    scores: Grid<(i32, i32)>,
    max_iter: u32,
    rewardsystem: RewardTable,
    iteration: u32,
}

impl Tournament {
    /// The panel, the population, their memories and the score matrix.
    pub closed spec fn standing(&self) -> Standing {
        Standing {
            players: self.players@.map_values(|p: Player| p.mind()),
            opponents: self.opponents@.map_values(|p: Player| p.mind()),
            scores: grid_cells(self.scores),
        }
    }

    /// The reward rule, as a table.
    pub closed spec fn rules(&self) -> RewardTable {
        self.rewardsystem
    }

    /// Iterations that one call of `run` performs.
    pub closed spec fn rounds_target(&self) -> nat {
        self.max_iter as nat
    }

    /// Iterations performed so far.
    pub closed spec fn rounds_played(&self) -> nat {
        self.iteration as nat
    }

    /// A well-formed standing whose scores stay within what the rounds
    /// played so far can reach, with room for every panel player's score to
    /// be summed.
    pub closed spec fn wf(&self) -> bool {
        &&& standing_wf(self.standing())
        &&& cells_within(self.standing(), self.iteration * self.rewardsystem.scale())
        &&& self.iteration * self.rewardsystem.scale() * NUM_PLAYERS <= i32::MAX
        &&& self.players.len() == NUM_PLAYERS
        &&& self.opponents.len() == POPULATION_SIZE
    }

    /// A new tournament of `n_iter` iterations per run under the reward rule
    /// `rules`, against the opponents that `opponent_starting_pop` encodes.
    pub fn from<F: Fn(&Decision, &Decision) -> (i32, i32)>(
        n_iter: u32,
        rules: F,
        opponent_starting_pop: Vec<u8>,
    ) -> (t: Tournament)
        requires
            opponent_starting_pop.len() == POPULATION_SIZE,
            forall|a: Decision, b: Decision| rules.requires((&a, &b)),
        ensures
            t.wf(),
            is_fresh(t.standing(), opponent_starting_pop@),
            t.rounds_played() == 0,
            t.rounds_target() == n_iter,
            forall|a: Decision, b: Decision| rules.ensures((&a, &b), #[trigger] t.rules().payoff(a, b)),
            forall|j: int| 0 <= j < NUM_PLAYERS ==> #[trigger] t.player_name(j) == panel_name(j),
            forall|i: int|
                0 <= i < POPULATION_SIZE ==> #[trigger] t.opponent_name(i) == decimal(
                    opponent_starting_pop@[i] as nat,
                ),
    {
        let mut players: Vec<Player> = Vec::new();
        let mut j: usize = 0;
        while j < NUM_PLAYERS
            invariant
                j <= NUM_PLAYERS,
                players.len() == j,
                forall|k: int|
                    0 <= k < j ==> (#[trigger] players@[k]).strategy == panel_strategy(k)
                        && players@[k].prev_move_self@ == blank_memory(POPULATION_SIZE as nat)
                        && players@[k].prev_move_other@ == blank_memory(POPULATION_SIZE as nat)
                        && players@[k].strategy_name@ == panel_name(k),
            decreases NUM_PLAYERS - j,
        {
            let (name, strategy) = panel_entry(j);
            players.push(
                Player {
                    prev_move_self: blank(POPULATION_SIZE),
                    prev_move_other: blank(POPULATION_SIZE),
                    strategy,
                    strategy_name: name.to_string(),
                },
            );
            j += 1;
        }
        let mut opponents: Vec<Player> = Vec::new();
        let mut i: usize = 0;
        while i < POPULATION_SIZE
            invariant
                i <= POPULATION_SIZE,
                opponent_starting_pop.len() == POPULATION_SIZE,
                opponents.len() == i,
                forall|k: int|
                    0 <= k < i ==> (#[trigger] opponents@[k]).strategy is Evolved
                        && opponents@[k].strategy->Evolved_0@ == genes_of(opponent_starting_pop@[k])
                        && opponents@[k].prev_move_self@ == blank_memory(NUM_PLAYERS as nat)
                        && opponents@[k].prev_move_other@ == blank_memory(NUM_PLAYERS as nat)
                        && opponents@[k].strategy_name@ == decimal(opponent_starting_pop@[k] as nat),
            decreases POPULATION_SIZE - i,
        {
            let c = opponent_starting_pop[i];
            opponents.push(
                Player {
                    prev_move_self: blank(NUM_PLAYERS),
                    prev_move_other: blank(NUM_PLAYERS),
                    strategy: Strategy::Evolved(number_to_genome(c)),
                    strategy_name: decimal_name(c),
                },
            );
            i += 1;
        }
        let t = Tournament {
            players,
            opponents,
            scores: zero_grid(POPULATION_SIZE, NUM_PLAYERS),
            max_iter: n_iter,
            rewardsystem: RewardTable::tabulate(rules),
            iteration: 0,
        };
        let ghost s = t.standing();
        assert forall|a: int| 0 <= a < POPULATION_SIZE implies (#[trigger] s.scores[a]) == Seq::new(
            NUM_PLAYERS as nat,
            |k: int| (0i32, 0i32),
        ) by {
            assert(s.scores[a] =~= Seq::new(NUM_PLAYERS as nat, |k: int| (0i32, 0i32)));
        }
        assert forall|a: int, b: int|
            0 <= a < POPULATION_SIZE && 0 <= b < NUM_PLAYERS implies #[trigger] memory_agrees(s, a, b) by {
            assert(s.players[b] == t.players@[b].mind());
            assert(s.opponents[a] == t.opponents@[a].mind());
        }
        assert forall|b: int| 0 <= b < NUM_PLAYERS implies (#[trigger] s.players[b]).prev_self.len()
            == POPULATION_SIZE && s.players[b].prev_other.len() == POPULATION_SIZE by {
            assert(s.players[b] == t.players@[b].mind());
        }
        assert forall|a: int| 0 <= a < POPULATION_SIZE implies (#[trigger] s.opponents[a]).prev_self.len()
            == NUM_PLAYERS && s.opponents[a].prev_other.len() == NUM_PLAYERS
            && s.opponents[a].strategy is Evolved by {
            assert(s.opponents[a] == t.opponents@[a].mind());
        }
        assert(standing_wf(s));
        assert(cells_within(s, 0)) by {
            assert forall|a: int, b: int|
                0 <= a < POPULATION_SIZE && 0 <= b < NUM_PLAYERS implies magnitude(
                    #[trigger] s.scores[a][b].0,
                ) <= 0 && magnitude(s.scores[a][b].1) <= 0 by {
                assert(s.scores[a][b] == (0i32, 0i32));
            }
        }
        assert(t.iteration * t.rewardsystem.scale() == 0) by (nonlinear_arith)
            requires
                t.iteration == 0,
        ;
        t
    }

    /// Aggregate fitness of opponent `i`.
    fn fitness_of(&self, i: usize) -> (r: i32)
        requires
            self.wf(),
            i < POPULATION_SIZE,
        ensures
            r == fitness(self.standing(), i as int),
    {
        let ghost s = self.standing();
        let ghost lim = self.iteration * self.rewardsystem.scale();
        let mut acc: i32 = 0;
        let mut j: usize = 0;
        while j < NUM_PLAYERS
            invariant
                self.wf(),
                s == self.standing(),
                i < POPULATION_SIZE,
                j <= NUM_PLAYERS,
                lim == self.iteration * self.rewardsystem.scale(),
                acc == row_total(s.scores[i as int], j as int),
                magnitude(acc) <= j * lim,
            decreases NUM_PLAYERS - j,
        {
            let (score_part, _) = grid_get(&self.scores, i, j);
            proof {
                assert(magnitude(s.scores[i as int][j as int].0) <= lim);
                assert(j * lim + lim == (j + 1) * lim) by (nonlinear_arith);
                assert((j + 1) * lim <= NUM_PLAYERS * lim) by (nonlinear_arith)
                    requires
                        j < NUM_PLAYERS,
                        lim >= 0,
                ;
            }
            acc = acc + score_part;
            j += 1;
        }
        acc
    }

    /// The genome that opponent `i` plays.
    fn opponent_genome(&self, i: usize) -> (g: Genome)
        requires
            self.wf(),
            i < POPULATION_SIZE,
        ensures
            g == self.standing().opponents[i as int].strategy->Evolved_0,
    {
        assert(self.standing().opponents[i as int] == self.opponents@[i as int].mind());
        match self.opponents[i].strategy {
            Strategy::Evolved(g) => g,
            _ => [false; 5],
        }
    }

    /// The genomes of the fittest opponents, best first, with ties kept in
    /// population order, and the best aggregate fitness.
    pub fn select_ten_fittest_and_bestscore(&self) -> (r: (Vec<Genome>, i32))
        requires
            self.wf(),
        ensures
            r.0.len() == GENERATION_SIZE,
            exists|idx: Seq<int>|
                idx.len() == GENERATION_SIZE && is_leaderboard(self.standing(), idx) && (forall|k: int|
                    0 <= k < GENERATION_SIZE ==> #[trigger] r.0@[k]
                        == self.standing().opponents[idx[k]].strategy->Evolved_0)
                    && r.1 == fitness(self.standing(), idx[0]),
            forall|a: int| 0 <= a < POPULATION_SIZE ==> fitness(self.standing(), a) <= r.1,
    {
        let ghost s = self.standing();
        let mut fits: Vec<i32> = Vec::new();
        let mut a: usize = 0;
        while a < POPULATION_SIZE
            invariant
                self.wf(),
                s == self.standing(),
                a <= POPULATION_SIZE,
                fits.len() == a,
                forall|b: int| 0 <= b < a ==> #[trigger] fits@[b] == fitness(s, b),
            decreases POPULATION_SIZE - a,
        {
            fits.push(self.fitness_of(a));
            a += 1;
        }
        let mut chosen: Vec<bool> = Vec::new();
        let mut a: usize = 0;
        while a < POPULATION_SIZE
            invariant
                a <= POPULATION_SIZE,
                chosen.len() == a,
                forall|b: int| 0 <= b < a ==> !#[trigger] chosen@[b],
                count_true(chosen@) == 0,
            decreases POPULATION_SIZE - a,
        {
            let ghost before = chosen@;
            chosen.push(false);
            assert(chosen@.drop_last() =~= before);
            a += 1;
        }
        let ghost mut idx: Seq<int> = Seq::empty();
        let mut leaderboard: Vec<Genome> = Vec::new();
        let mut best_score: i32 = 0;
        let mut k: usize = 0;
        while k < GENERATION_SIZE
            invariant
                self.wf(),
                s == self.standing(),
                k <= GENERATION_SIZE,
                fits.len() == POPULATION_SIZE,
                forall|b: int| 0 <= b < POPULATION_SIZE ==> #[trigger] fits@[b] == fitness(s, b),
                chosen.len() == POPULATION_SIZE,
                count_true(chosen@) == k,
                idx.len() == k,
                leaderboard.len() == k,
                forall|b: int| 0 <= b < POPULATION_SIZE ==> (#[trigger] chosen@[b] <==> idx.contains(b)),
                is_leaderboard(s, idx),
                forall|m: int|
                    0 <= m < k ==> #[trigger] leaderboard@[m] == s.opponents[idx[m]].strategy->Evolved_0,
                k > 0 ==> best_score == fitness(s, idx[0]),
            decreases GENERATION_SIZE - k,
        {
            proof {
                lemma_count_true_missing(chosen@);
            }
            let ghost free = choose|b: int| 0 <= b < POPULATION_SIZE && !chosen@[b];
            let mut best: usize = POPULATION_SIZE;
            let mut a: usize = 0;
            while a < POPULATION_SIZE
                invariant
                    a <= POPULATION_SIZE,
                    fits.len() == POPULATION_SIZE,
                    chosen.len() == POPULATION_SIZE,
                    forall|b: int| 0 <= b < POPULATION_SIZE ==> #[trigger] fits@[b] == fitness(s, b),
                    0 <= free < POPULATION_SIZE && !chosen@[free],
                    best <= POPULATION_SIZE,
                    best == POPULATION_SIZE ==> forall|b: int| 0 <= b < a ==> #[trigger] chosen@[b],
                    best < POPULATION_SIZE ==> best < a && !chosen@[best as int],
                    forall|b: int|
                        0 <= b < a && !chosen@[b] && b != best ==> #[trigger] ranks_before(s, best as int, b),
                decreases POPULATION_SIZE - a,
            {
                let ghost prev = best;
                if !chosen[a] && (best == POPULATION_SIZE || fits[a] > fits[best]) {
                    best = a;
                }
                proof {
                    assert forall|b: int|
                        0 <= b < a + 1 && !chosen@[b] && b != best implies #[trigger] ranks_before(
                            s, best as int, b) by {
                        if b < a && b != prev {
                            assert(ranks_before(s, prev as int, b));
                        }
                    }
                }
                a += 1;
            }
            proof {
                assert forall|m: int| 0 <= m < k implies ranks_before(s, #[trigger] idx[m], best as int) by {
                    assert(!idx.contains(best as int));
                }
                assert forall|b: int|
                    0 <= b < POPULATION_SIZE && !idx.push(best as int).contains(b) implies ranks_before(
                        s, best as int, b) by {
                    assert(idx.push(best as int)[k as int] == best);
                    if idx.contains(b) {
                        let m = choose|m: int| 0 <= m < idx.len() && idx[m] == b;
                        assert(idx.push(best as int)[m] == b);
                    }
                    assert(!chosen@[b]);
                }
                lemma_count_true_set(chosen@, best as int);
            }
            let ghost old_idx = idx;
            chosen.set(best, true);
            proof {
                idx = idx.push(best as int);
                assert forall|b: int| 0 <= b < POPULATION_SIZE implies (#[trigger] chosen@[b] <==> idx.contains(b)) by {
                    if b == best {
                        assert(idx[k as int] == b);
                    } else if idx.contains(b) {
                        let m = choose|m: int| 0 <= m < idx.len() && idx[m] == b;
                        assert(old_idx[m] == b);
                    } else {
                        if old_idx.contains(b) {
                            let m = choose|m: int| 0 <= m < old_idx.len() && old_idx[m] == b;
                            assert(idx[m] == b);
                        }
                    }
                }
                assert forall|m: int, b: int|
                    0 <= m < idx.len() && 0 <= b < POPULATION_SIZE && !idx.contains(b) implies #[trigger] ranks_before(
                        s, idx[m], b) by {
                    if m < k {
                        assert(idx[m] == old_idx[m]);
                        assert(!old_idx.contains(b)) by {
                            if old_idx.contains(b) {
                                let m2 = choose|m2: int| 0 <= m2 < old_idx.len() && old_idx[m2] == b;
                                assert(idx[m2] == b);
                            }
                        }
                    }
                }
                assert forall|k1: int, k2: int|
                    0 <= k1 < k2 < idx.len() implies ranks_before(s, #[trigger] idx[k1], #[trigger] idx[k2]) by {
                    if k2 < k {
                        assert(idx[k1] == old_idx[k1] && idx[k2] == old_idx[k2]);
                    } else {
                        assert(idx[k1] == old_idx[k1]);
                    }
                }
            }
            leaderboard.push(self.opponent_genome(best));
            if k == 0 {
                best_score = fits[best];
            }
            k += 1;
        }
        proof {
            assert forall|a: int| 0 <= a < POPULATION_SIZE implies fitness(s, a) <= best_score by {
                if a != idx[0] {
                    if idx.contains(a) {
                        let m = choose|m: int| 0 <= m < idx.len() && idx[m] == a;
                        assert(ranks_before(s, idx[0], idx[m]));
                    } else {
                        assert(ranks_before(s, idx[0], a));
                    }
                }
            }
        }
        (leaderboard, best_score)
    }

    /// Cell (`opponent`, `player`) of the score matrix: (opponent score,
    /// player score).
    pub fn score(&self, player: usize, opponent: usize) -> (r: (i32, i32))
        requires
            self.wf(),
            player < NUM_PLAYERS,
            opponent < POPULATION_SIZE,
        ensures
            r == self.standing().scores[opponent as int][player as int],
    {
        grid_get(&self.scores, opponent, player)
    }

    /// Panel player `j`.
    pub fn player(&self, j: usize) -> (r: &Player)
        requires
            self.wf(),
            j < NUM_PLAYERS,
        ensures
            r.mind() == self.standing().players[j as int],
            r.name() == self.player_name(j as int),
    {
        &self.players[j]
    }

    /// Opponent `i`.
    pub fn opponent(&self, i: usize) -> (r: &Player)
        requires
            self.wf(),
            i < POPULATION_SIZE,
        ensures
            r.mind() == self.standing().opponents[i as int],
            r.name() == self.opponent_name(i as int),
    {
        &self.opponents[i]
    }

    /// Iterations performed so far.
    pub fn iterations_played(&self) -> (r: u32)
        ensures
            r == self.rounds_played(),
    {
        self.iteration
    }

    /// Whether one more `run` keeps every score sum within `i32`.
    pub fn can_run(&self) -> (r: bool)
        ensures
            r == ((self.rounds_played() + self.rounds_target()) * self.rules().scale() * NUM_PLAYERS
                <= i32::MAX),
    {
        let total: u128 = self.iteration as u128 + self.max_iter as u128;
        let scale: u128 = self.rewardsystem.scale_of() as u128;
        assert(total * scale <= 0x2_0000_0000u128 * 0x1_0000_0000u128) by (nonlinear_arith)
            requires
                total <= 0x2_0000_0000u128,
                scale <= 0x1_0000_0000u128,
        ;
        let product: u128 = total * scale;
        assert(product <= 0x2_0000_0000_0000_0000u128);
        product * 10 <= i32::MAX as u128
    }

    /// The display name of panel player `j`.
    pub closed spec fn player_name(&self, j: int) -> Seq<char> {
        self.players@[j].strategy_name@
    }

    /// The display name of opponent `i`.
    pub closed spec fn opponent_name(&self, i: int) -> Seq<char> {
        self.opponents@[i].strategy_name@
    }

    /// Plays one round between opponent `i` and panel player `j`, the
    /// player's move `pd` given.
    fn settle(&mut self, i: usize, j: usize, pd: Decision)
        requires
            standing_wf(old(self).standing()),
            old(self).players.len() == NUM_PLAYERS,
            old(self).opponents.len() == POPULATION_SIZE,
            i < POPULATION_SIZE,
            j < NUM_PLAYERS,
            magnitude(old(self).standing().scores[i as int][j as int].0) + old(self).rules().scale()
                <= i32::MAX,
            magnitude(old(self).standing().scores[i as int][j as int].1) + old(self).rules().scale()
                <= i32::MAX,
        ensures
            final(self).standing() == settle(old(self).standing(), old(self).rules(), i as int, j as int, pd),
            final(self).rewardsystem == old(self).rewardsystem,
            final(self).max_iter == old(self).max_iter,
            final(self).iteration == old(self).iteration,
            final(self).players.len() == NUM_PLAYERS,
            final(self).opponents.len() == POPULATION_SIZE,
    {
        let ghost s = self.standing();
        assert(s.opponents[i as int] == self.opponents[i as int].mind());
        assert(memory_agrees(s, i as int, j as int));
        let od = self.opponents[i].strategy.decide(
            self.opponents[i].prev_move_self[j],
            self.opponents[i].prev_move_other[j],
        );
        let (n, m) = self.rewardsystem.reward(&od, &pd);
        proof {
            self.rewardsystem.lemma_scale_bounds();
            assert(magnitude(self.rewardsystem.payoff(od, pd).0) <= self.rewardsystem.scale());
        }
        let (opponent_score, player_score) = grid_get(&self.scores, i, j);
        grid_set(&mut self.scores, i, j, (opponent_score + n, player_score + m));
        self.players[j].prev_move_self[i] = Some(pd);
        self.players[j].prev_move_other[i] = Some(od);
        self.opponents[i].prev_move_self[j] = Some(od);
        self.opponents[i].prev_move_other[j] = Some(pd);
        let ghost t = settle(s, self.rewardsystem, i as int, j as int, pd);
        assert(self.standing().players =~= t.players);
        assert(self.standing().opponents =~= t.opponents);
    }

    /// Plays one round between opponent `i` and panel player `j`; a
    /// stochastic player draws its move.
    fn execute_round_and_update_scores(&mut self, i: usize, j: usize)
        requires
            standing_wf(old(self).standing()),
            old(self).players.len() == NUM_PLAYERS,
            old(self).opponents.len() == POPULATION_SIZE,
            i < POPULATION_SIZE,
            j < NUM_PLAYERS,
            magnitude(old(self).standing().scores[i as int][j as int].0) + old(self).rules().scale()
                <= i32::MAX,
            magnitude(old(self).standing().scores[i as int][j as int].1) + old(self).rules().scale()
                <= i32::MAX,
        ensures
            exists|d: bool|
                final(self).standing() == play(old(self).standing(), old(self).rules(), i as int, j as int, d),
            final(self).rewardsystem == old(self).rewardsystem,
            final(self).max_iter == old(self).max_iter,
            final(self).iteration == old(self).iteration,
            final(self).players.len() == NUM_PLAYERS,
            final(self).opponents.len() == POPULATION_SIZE,
    {
        let ghost s = self.standing();
        assert(s.players[j as int] == self.players[j as int].mind());
        assert(memory_agrees(s, i as int, j as int));
        let own = self.players[j].prev_move_self[i];
        let other = self.players[j].prev_move_other[i];
        let pd = self.players[j].strategy.decide(own, other);
        let ghost d = pd == Decision::Cooperate;
        assert(pd == s.players[j as int].strategy.rule(own, other, d));
        self.settle(i, j, pd);
        assert(self.standing() == play(s, self.rewardsystem, i as int, j as int, d));
    }

    /// One iteration: every panel player, in order, plays one round against
    /// every opponent, in order.
    fn run_iteration(&mut self)
        requires
            old(self).wf(),
            (old(self).iteration + 1) * old(self).rewardsystem.scale() * NUM_PLAYERS <= i32::MAX,
        ensures
            final(self).wf(),
            final(self).iteration == old(self).iteration + 1,
            final(self).rewardsystem == old(self).rewardsystem,
            final(self).max_iter == old(self).max_iter,
            exists|round: Seq<Seq<bool>>|
                round_shaped(round) && final(self).standing() == play_round(
                    old(self).standing(),
                    old(self).rules(),
                    round,
                ),
    {
        let ghost s0 = self.standing();
        let ghost step = self.rewardsystem.scale();
        let ghost base = self.iteration * step;
        let ghost mut round: Seq<Seq<bool>> = Seq::empty();
        proof {
            self.rewardsystem.lemma_scale_bounds();
            assert((self.iteration + 1) * step <= i32::MAX) by (nonlinear_arith)
                requires
                    (self.iteration + 1) * step * NUM_PLAYERS <= i32::MAX,
                    step >= 1,
            ;
            assert forall|a: int, b: int|
                0 <= a < POPULATION_SIZE && 0 <= b < NUM_PLAYERS implies #[trigger] cell_bounded(
                    s0, a, b, limit_at(base, step, 0, 0, a, b)) by {
                assert(magnitude(s0.scores[a][b].0) <= base);
            }
        }
        let mut j: usize = 0;
        while j < NUM_PLAYERS
            invariant
                j <= NUM_PLAYERS,
                round.len() == j,
                forall|k: int| 0 <= k < j ==> (#[trigger] round[k]).len() == POPULATION_SIZE,
                self.standing() == play_round(s0, self.rewardsystem, round),
                standing_wf(self.standing()),
                column_bounds(self.standing(), base, step, j as int, 0),
                base == self.iteration * step,
                step == self.rewardsystem.scale(),
                (self.iteration + 1) * step <= i32::MAX,
                self.rewardsystem == old(self).rewardsystem,
                self.max_iter == old(self).max_iter,
                self.iteration == old(self).iteration,
                self.players.len() == NUM_PLAYERS,
                self.opponents.len() == POPULATION_SIZE,
            decreases NUM_PLAYERS - j,
        {
            let ghost before = self.standing();
            self.run_column(j);
            let ghost col = choose|col: Seq<bool>|
                col.len() == POPULATION_SIZE && self.standing() == play_column(
                    before,
                    self.rewardsystem,
                    j as int,
                    col,
                );
            proof {
                assert(round.push(col).drop_last() =~= round);
                round = round.push(col);
            }
            j += 1;
        }
        proof {
            assert((self.iteration + 1) * step == base + step) by (nonlinear_arith)
                requires
                    base == self.iteration * step,
            ;
            let s1 = self.standing();
            assert forall|a: int, b: int|
                0 <= a < POPULATION_SIZE && 0 <= b < NUM_PLAYERS implies magnitude(
                    #[trigger] s1.scores[a][b].0,
                ) <= base + step && magnitude(s1.scores[a][b].1) <= base + step by {
                assert(cell_bounded(s1, a, b, limit_at(base, step, NUM_PLAYERS as int, 0, a, b)));
            }
        }
        assert(self.iteration + 1 <= i32::MAX) by (nonlinear_arith)
            requires
                (self.iteration + 1) * step <= i32::MAX,
                step >= 1,
        ;
        self.iteration = self.iteration + 1;
        assert(round_shaped(round));
        assert(self.standing() == play_round(s0, self.rewardsystem, round));
    }

    /// Runs the configured number of iterations.
    pub fn run(&mut self)
        requires
            old(self).wf(),
            (old(self).rounds_played() + old(self).rounds_target()) * old(self).rules().scale()
                * NUM_PLAYERS <= i32::MAX,
        ensures
            final(self).wf(),
            final(self).rounds_played() == old(self).rounds_played() + old(self).rounds_target(),
            final(self).rounds_target() == old(self).rounds_target(),
            final(self).rules() == old(self).rules(),
            exists|rounds: Seq<Seq<Seq<bool>>>|
                rounds.len() == old(self).rounds_target() && (forall|t: int|
                    0 <= t < rounds.len() ==> round_shaped(#[trigger] rounds[t]))
                    && final(self).standing() == play_rounds(
                    old(self).standing(),
                    old(self).rules(),
                    rounds,
                ),
    {
        let ghost s0 = self.standing();
        let ghost mut rounds: Seq<Seq<Seq<bool>>> = Seq::empty();
        let mut k: u32 = 0;
        while k < self.max_iter
            invariant
                k <= self.max_iter,
                rounds.len() == k,
                forall|t: int| 0 <= t < rounds.len() ==> round_shaped(#[trigger] rounds[t]),
                self.standing() == play_rounds(s0, self.rewardsystem, rounds),
                self.wf(),
                self.iteration == old(self).iteration + k,
                (old(self).iteration + self.max_iter) * self.rewardsystem.scale() * NUM_PLAYERS
                    <= i32::MAX,
                self.rewardsystem == old(self).rewardsystem,
                self.max_iter == old(self).max_iter,
            decreases self.max_iter - k,
        {
            let ghost before = self.standing();
            proof {
                self.rewardsystem.lemma_scale_bounds();
                let it1 = self.iteration + 1;
                let total = old(self).iteration + self.max_iter;
                let sc = self.rewardsystem.scale();
                assert(it1 * sc * NUM_PLAYERS <= i32::MAX) by (nonlinear_arith)
                    requires
                        it1 <= total,
                        total * sc * NUM_PLAYERS <= i32::MAX,
                        sc >= 1,
                ;
            }
            self.run_iteration();
            let ghost round = choose|round: Seq<Seq<bool>>|
                round_shaped(round) && self.standing() == play_round(before, self.rewardsystem, round);
            proof {
                assert(rounds.push(round).drop_last() =~= rounds);
                rounds = rounds.push(round);
            }
            k += 1;
        }
    }

    /// Panel player `j` plays one round against every opponent in order.
    fn run_column(&mut self, j: usize)
        requires
            standing_wf(old(self).standing()),
            old(self).players.len() == NUM_PLAYERS,
            old(self).opponents.len() == POPULATION_SIZE,
            j < NUM_PLAYERS,
            (old(self).iteration + 1) * old(self).rewardsystem.scale() <= i32::MAX,
            column_bounds(old(self).standing(), old(self).iteration * old(self).rewardsystem.scale(),
                old(self).rewardsystem.scale(), j as int, 0),
        ensures
            exists|col: Seq<bool>|
                col.len() == POPULATION_SIZE && final(self).standing() == play_column(
                    old(self).standing(),
                    old(self).rules(),
                    j as int,
                    col,
                ),
            standing_wf(final(self).standing()),
            column_bounds(final(self).standing(), old(self).iteration * old(self).rewardsystem.scale(),
                old(self).rewardsystem.scale(), j as int + 1, 0),
            final(self).rewardsystem == old(self).rewardsystem,
            final(self).max_iter == old(self).max_iter,
            final(self).iteration == old(self).iteration,
            final(self).players.len() == NUM_PLAYERS,
            final(self).opponents.len() == POPULATION_SIZE,
    {
        let ghost s0 = self.standing();
        let ghost base = self.iteration * self.rewardsystem.scale();
        let ghost step = self.rewardsystem.scale();
        let ghost mut col: Seq<bool> = Seq::empty();
        let mut i: usize = 0;
        while i < POPULATION_SIZE
            invariant
                i <= POPULATION_SIZE,
                j < NUM_PLAYERS,
                col.len() == i,
                self.standing() == play_column(s0, self.rewardsystem, j as int, col),
                standing_wf(self.standing()),
                column_bounds(self.standing(), base, step, j as int, i as int),
                base == self.iteration * self.rewardsystem.scale(),
                step == self.rewardsystem.scale(),
                (self.iteration + 1) * step <= i32::MAX,
                self.rewardsystem == old(self).rewardsystem,
                self.max_iter == old(self).max_iter,
                self.iteration == old(self).iteration,
                self.players.len() == NUM_PLAYERS,
                self.opponents.len() == POPULATION_SIZE,
            decreases POPULATION_SIZE - i,
        {
            let ghost before = self.standing();
            proof {
                self.rewardsystem.lemma_scale_bounds();
                assert(base + step <= i32::MAX) by (nonlinear_arith)
                    requires
                        base == self.iteration * step,
                        (self.iteration + 1) * step <= i32::MAX,
                ;
                assert(cell_bounded(before, i as int, j as int,
                    limit_at(base, step, j as int, i as int, i as int, j as int)));
            }
            self.execute_round_and_update_scores(i, j);
            let ghost d = choose|d: bool|
                self.standing() == play(before, self.rewardsystem, i as int, j as int, d);
            proof {
                let p = before.players[j as int];
                lemma_settle_wf(before, self.rewardsystem, i as int, j as int,
                    p.strategy.rule(p.prev_self[i as int], p.prev_other[i as int], d));
                assert(col.push(d).drop_last() =~= col);
                col = col.push(d);
                lemma_play_bounds(before, self.rewardsystem, i as int, j as int, d, base, step);
            }
            i += 1;
        }
        assert(column_bounds(self.standing(), base, step, j as int + 1, 0)) by {
            assert forall|a: int, b: int|
                0 <= a < POPULATION_SIZE && 0 <= b < NUM_PLAYERS implies #[trigger] cell_bounded(
                    self.standing(), a, b, limit_at(base, step, j as int + 1, 0, a, b)) by {
                assert(cell_bounded(self.standing(), a, b,
                    limit_at(base, step, j as int, POPULATION_SIZE as int, a, b)));
            }
        }
    }
}

} // verus!
