use vstd::prelude::*;
use crate::decision::Decision;
use crate::genome::genes_of;
use crate::panel::panel_strategy;
use crate::reward::{magnitude, RewardTable};
use crate::strategy::{history_consistent, Strategy};

verus! {

/// Number of players in the fixed panel.
pub const NUM_PLAYERS: usize = 10;

/// Number of genome-encoded opponents in a population.
pub const POPULATION_SIZE: usize = 20;

/// Number of genomes that selection keeps.
pub const GENERATION_SIZE: usize = 10;

/// What a participant brings to a round: its strategy and its memory of
/// each counterpart.
pub struct Mind {
    pub strategy: Strategy,
    pub prev_self: Seq<Option<Decision>>,
    pub prev_other: Seq<Option<Decision>>,
}

/// The state of a tournament: the panel, the population, and the score
/// matrix, one row per opponent and one column per panel player; each cell
/// holds (opponent score, player score).
pub struct Standing {
    pub players: Seq<Mind>,
    pub opponents: Seq<Mind>,
    pub scores: Seq<Seq<(i32, i32)>>,
}

/// The memories of panel player `j` and opponent `i` agree: what one did
/// last is what the other saw, and both moves are known or neither is.
pub open spec fn memory_agrees(s: Standing, i: int, j: int) -> bool {
    &&& s.players[j].prev_other[i] == s.opponents[i].prev_self[j]
    &&& s.players[j].prev_self[i] == s.opponents[i].prev_other[j]
    &&& history_consistent(s.players[j].prev_self[i], s.players[j].prev_other[i])
}

/// The shape of a standing, the agreement of every pair of memories, and
/// genome-encoded opponents.
pub open spec fn standing_wf(s: Standing) -> bool {
    &&& s.players.len() == NUM_PLAYERS
    &&& s.opponents.len() == POPULATION_SIZE
    &&& s.scores.len() == POPULATION_SIZE
    &&& forall|i: int| 0 <= i < POPULATION_SIZE ==> (#[trigger] s.scores[i]).len() == NUM_PLAYERS
    &&& forall|j: int|
        0 <= j < NUM_PLAYERS ==> (#[trigger] s.players[j]).prev_self.len() == POPULATION_SIZE
            && s.players[j].prev_other.len() == POPULATION_SIZE
    &&& forall|i: int|
        0 <= i < POPULATION_SIZE ==> (#[trigger] s.opponents[i]).prev_self.len() == NUM_PLAYERS
            && s.opponents[i].prev_other.len() == NUM_PLAYERS
            && s.opponents[i].strategy is Evolved
    &&& forall|i: int, j: int|
        0 <= i < POPULATION_SIZE && 0 <= j < NUM_PLAYERS ==> #[trigger] memory_agrees(s, i, j)
}

/// Every score in the matrix has magnitude at most `lim`.
pub open spec fn cells_within(s: Standing, lim: int) -> bool {
    forall|i: int, j: int|
        0 <= i < POPULATION_SIZE && 0 <= j < NUM_PLAYERS ==> magnitude(#[trigger] s.scores[i][j].0)
            <= lim && magnitude(s.scores[i][j].1) <= lim
}

/// One round between opponent `i` and panel player `j`, the player having
/// chosen `pd`: the opponent answers from its memory, the reward rule's
/// payoffs for (opponent move, player move) are added to cell (`i`, `j`),
/// and both memories of the pair are overwritten with the two moves.
pub open spec fn settle(s: Standing, rules: RewardTable, i: int, j: int, pd: Decision) -> Standing {
    let p = s.players[j];
    let o = s.opponents[i];
    let od = o.strategy.rule(o.prev_self[j], o.prev_other[j], false);
    let pay = rules.payoff(od, pd);
    let c = s.scores[i][j];
    Standing {
        players: s.players.update(
            j,
            Mind {
                strategy: p.strategy,
                prev_self: p.prev_self.update(i, Some(pd)),
                prev_other: p.prev_other.update(i, Some(od)),
            },
        ),
        opponents: s.opponents.update(
            i,
            Mind {
                strategy: o.strategy,
                prev_self: o.prev_self.update(j, Some(od)),
                prev_other: o.prev_other.update(j, Some(pd)),
            },
        ),
        scores: s.scores.update(i, s.scores[i].update(j, ((c.0 + pay.0) as i32, (c.1 + pay.1) as i32))),
    }
}

/// One round between opponent `i` and panel player `j`, where `draw` is the
/// outcome of the player's random draw (read only by stochastic strategies).
pub open spec fn play(s: Standing, rules: RewardTable, i: int, j: int, draw: bool) -> Standing {
    let p = s.players[j];
    settle(s, rules, i, j, p.strategy.rule(p.prev_self[i], p.prev_other[i], draw))
}

/// Panel player `j` against opponents `0 .. col.len()` in order, the
/// player drawing `col[i]` against opponent `i`.
pub open spec fn play_column(s: Standing, rules: RewardTable, j: int, col: Seq<bool>) -> Standing
    decreases col.len(),
{
    if col.len() == 0 {
        s
    } else {
        play(play_column(s, rules, j, col.drop_last()), rules, col.len() - 1, j, col.last())
    }
}

/// Panel players `0 .. round.len()` in order, each against the population
/// with the draws of its column.
pub open spec fn play_round(s: Standing, rules: RewardTable, round: Seq<Seq<bool>>) -> Standing
    decreases round.len(),
{
    if round.len() == 0 {
        s
    } else {
        play_column(play_round(s, rules, round.drop_last()), rules, round.len() - 1, round.last())
    }
}

/// Iterations of the tournament in order, one per entry of `rounds`.
pub open spec fn play_rounds(s: Standing, rules: RewardTable, rounds: Seq<Seq<Seq<bool>>>) -> Standing
    decreases rounds.len(),
{
    if rounds.len() == 0 {
        s
    } else {
        play_round(play_rounds(s, rules, rounds.drop_last()), rules, rounds.last())
    }
}

/// The draws of one full iteration: one per (panel player, opponent) pair.
pub open spec fn round_shaped(round: Seq<Seq<bool>>) -> bool {
    &&& round.len() == NUM_PLAYERS
    &&& forall|j: int| 0 <= j < NUM_PLAYERS ==> (#[trigger] round[j]).len() == POPULATION_SIZE
}

/// A round keeps the shape of the standing and the agreement of memories.
pub proof fn lemma_settle_wf(s: Standing, rules: RewardTable, i: int, j: int, pd: Decision)
    requires
        standing_wf(s),
        0 <= i < POPULATION_SIZE,
        0 <= j < NUM_PLAYERS,
    ensures
        standing_wf(settle(s, rules, i, j, pd)),
{
    let t = settle(s, rules, i, j, pd);
    assert forall|a: int| 0 <= a < POPULATION_SIZE implies (#[trigger] t.scores[a]).len()
        == NUM_PLAYERS by {
        assert(s.scores[a].len() == NUM_PLAYERS);
    }
    assert forall|b: int| 0 <= b < NUM_PLAYERS implies (#[trigger] t.players[b]).prev_self.len()
        == POPULATION_SIZE && t.players[b].prev_other.len() == POPULATION_SIZE by {
        assert(s.players[b].prev_self.len() == POPULATION_SIZE);
    }
    assert forall|a: int| 0 <= a < POPULATION_SIZE implies (#[trigger] t.opponents[a]).prev_self.len()
        == NUM_PLAYERS && t.opponents[a].prev_other.len() == NUM_PLAYERS
        && t.opponents[a].strategy is Evolved by {
        assert(s.opponents[a].prev_self.len() == NUM_PLAYERS);
    }
    assert forall|a: int, b: int|
        0 <= a < POPULATION_SIZE && 0 <= b < NUM_PLAYERS implies #[trigger] memory_agrees(t, a, b) by {
        assert(memory_agrees(s, a, b));
    }
}


/// Both scores of cell (`i`, `j`) have magnitude at most `lim`.
pub open spec fn cell_bounded(s: Standing, i: int, j: int, lim: int) -> bool {
    magnitude(s.scores[i][j].0) <= lim && magnitude(s.scores[i][j].1) <= lim
}

/// The bound on cell (`a`, `b`) partway through an iteration, at panel
/// player `j` and opponent `i`.
pub open spec fn limit_at(base: int, step: int, j: int, i: int, a: int, b: int) -> int {
    if b < j || (b == j && a < i) {
        base + step
    } else {
        base
    }
}

/// Partway through an iteration, at panel player `j` and opponent `i`: the
/// cells already played in it are within `base + step`, the others within
/// `base`.
pub open spec fn column_bounds(s: Standing, base: int, step: int, j: int, i: int) -> bool {
    forall|a: int, b: int|
        0 <= a < POPULATION_SIZE && 0 <= b < NUM_PLAYERS ==> #[trigger] cell_bounded(
            s,
            a,
            b,
            limit_at(base, step, j, i, a, b),
        )
}

/// A round moves only its own cell, and that by at most the rules' scale.
pub proof fn lemma_play_bounds(
    s: Standing,
    rules: RewardTable,
    i: int,
    j: int,
    d: bool,
    base: int,
    step: int,
)
    requires
        standing_wf(s),
        0 <= i < POPULATION_SIZE,
        0 <= j < NUM_PLAYERS,
        step == rules.scale(),
        column_bounds(s, base, step, j, i),
    ensures
        column_bounds(play(s, rules, i, j, d), base, step, j, i + 1),
{
    rules.lemma_scale_bounds();
    let p = s.players[j];
    let pd = p.strategy.rule(p.prev_self[i], p.prev_other[i], d);
    lemma_settle_scores(s, rules, i, j, pd);
    let t = settle(s, rules, i, j, pd);
    assert forall|a: int, b: int|
        0 <= a < POPULATION_SIZE && 0 <= b < NUM_PLAYERS implies #[trigger] cell_bounded(
            t, a, b, limit_at(base, step, j, i + 1, a, b)) by {
        assert(cell_bounded(s, a, b, limit_at(base, step, j, i, a, b)));
    }
}

/// A round changes cell (`i`, `j`) by the payoffs of its two moves and no
/// other cell.
pub proof fn lemma_settle_scores(s: Standing, rules: RewardTable, i: int, j: int, pd: Decision)
    requires
        standing_wf(s),
        0 <= i < POPULATION_SIZE,
        0 <= j < NUM_PLAYERS,
    ensures
        forall|a: int, b: int|
            0 <= a < POPULATION_SIZE && 0 <= b < NUM_PLAYERS && (a != i || b != j)
                ==> #[trigger] settle(s, rules, i, j, pd).scores[a][b] == s.scores[a][b],
        magnitude(settle(s, rules, i, j, pd).scores[i][j].0) <= magnitude(s.scores[i][j].0)
            + rules.scale(),
        magnitude(settle(s, rules, i, j, pd).scores[i][j].1) <= magnitude(s.scores[i][j].1)
            + rules.scale(),
{
    rules.lemma_scale_bounds();
    let o = s.opponents[i];
    let od = o.strategy.rule(o.prev_self[j], o.prev_other[j], false);
    let pay = rules.payoff(od, pd);
    assert(magnitude(pay.0) <= rules.scale() && magnitude(pay.1) <= rules.scale());
    let t = settle(s, rules, i, j, pd);
    assert(t.scores == s.scores.update(i, s.scores[i].update(j, t.scores[i][j])));
    assert forall|a: int, b: int|
        0 <= a < POPULATION_SIZE && 0 <= b < NUM_PLAYERS && (a != i || b != j)
            implies #[trigger] t.scores[a][b] == s.scores[a][b] by {
        assert(s.scores[a].len() == NUM_PLAYERS);
    }
}

/// After any round between opponent `i` and panel player `j`, what each
/// remembers of the other's last move is what the other remembers of its
/// own, and every other pair still agrees too.
pub proof fn lemma_memory_symmetry(s: Standing, rules: RewardTable, i: int, j: int, draw: bool)
    requires
        standing_wf(s),
        0 <= i < POPULATION_SIZE,
        0 <= j < NUM_PLAYERS,
    ensures
        play(s, rules, i, j, draw).players[j].prev_other[i] == play(s, rules, i, j, draw).opponents[i].prev_self[j],
        play(s, rules, i, j, draw).players[j].prev_self[i] == play(s, rules, i, j, draw).opponents[i].prev_other[j],
        standing_wf(play(s, rules, i, j, draw)),
{
    let p = s.players[j];
    lemma_settle_wf(s, rules, i, j, p.strategy.rule(p.prev_self[i], p.prev_other[i], draw));
}

/// Iterations run one after the other: `a` then `b` is `a + b`.
pub proof fn lemma_rounds_compose(
    s: Standing,
    rules: RewardTable,
    a: Seq<Seq<Seq<bool>>>,
    b: Seq<Seq<Seq<bool>>>,
)
    ensures
        play_rounds(play_rounds(s, rules, a), rules, b) == play_rounds(s, rules, a + b),
    decreases b.len(),
{
    if b.len() == 0 {
        assert(a + b =~= a);
    } else {
        lemma_rounds_compose(s, rules, a, b.drop_last());
        assert((a + b).drop_last() =~= a + b.drop_last());
        assert((a + b).last() == b.last());
    }
}

/// No panel player draws at random.
pub open spec fn deterministic_panel(s: Standing) -> bool {
    forall|j: int| 0 <= j < s.players.len() ==> !(#[trigger] s.players[j]).strategy.is_stochastic()
}

/// A round keeps every strategy.
proof fn lemma_play_keeps_panel(s: Standing, rules: RewardTable, i: int, j: int, d: bool)
    requires
        standing_wf(s),
        0 <= i < POPULATION_SIZE,
        0 <= j < NUM_PLAYERS,
    ensures
        standing_wf(play(s, rules, i, j, d)),
        forall|k: int|
            0 <= k < NUM_PLAYERS ==> (#[trigger] play(s, rules, i, j, d).players[k]).strategy
                == s.players[k].strategy,
{
    let p = s.players[j];
    lemma_settle_wf(s, rules, i, j, p.strategy.rule(p.prev_self[i], p.prev_other[i], d));
}

/// With a deterministic panel, a column does not depend on its draws.
proof fn lemma_column_ignores_draws(
    s: Standing,
    rules: RewardTable,
    j: int,
    c1: Seq<bool>,
    c2: Seq<bool>,
)
    requires
        standing_wf(s),
        deterministic_panel(s),
        0 <= j < NUM_PLAYERS,
        c1.len() == c2.len(),
        c1.len() <= POPULATION_SIZE,
    ensures
        play_column(s, rules, j, c1) == play_column(s, rules, j, c2),
        standing_wf(play_column(s, rules, j, c1)),
        deterministic_panel(play_column(s, rules, j, c1)),
    decreases c1.len(),
{
    if c1.len() > 0 {
        lemma_column_ignores_draws(s, rules, j, c1.drop_last(), c2.drop_last());
        let u = play_column(s, rules, j, c1.drop_last());
        lemma_play_keeps_panel(u, rules, c1.len() - 1, j, c1.last());
        assert(!u.players[j].strategy.is_stochastic());
    }
}

/// With a deterministic panel, an iteration does not depend on its draws.
proof fn lemma_round_ignores_draws(s: Standing, rules: RewardTable, r1: Seq<Seq<bool>>, r2: Seq<Seq<bool>>)
    requires
        standing_wf(s),
        deterministic_panel(s),
        r1.len() == r2.len(),
        r1.len() <= NUM_PLAYERS,
        forall|j: int| 0 <= j < r1.len() ==> (#[trigger] r1[j]).len() == POPULATION_SIZE,
        forall|j: int| 0 <= j < r2.len() ==> (#[trigger] r2[j]).len() == POPULATION_SIZE,
    ensures
        play_round(s, rules, r1) == play_round(s, rules, r2),
        standing_wf(play_round(s, rules, r1)),
        deterministic_panel(play_round(s, rules, r1)),
    decreases r1.len(),
{
    if r1.len() > 0 {
        lemma_round_ignores_draws(s, rules, r1.drop_last(), r2.drop_last());
        let u = play_round(s, rules, r1.drop_last());
        assert(r1.last() == r1[r1.len() - 1]);
        assert(r2.last() == r2[r2.len() - 1]);
        lemma_column_ignores_draws(u, rules, r1.len() - 1, r1.last(), r2.last());
    }
}

/// With a deterministic panel, iterations do not depend on their draws.
proof fn lemma_rounds_ignore_draws(
    s: Standing,
    rules: RewardTable,
    a: Seq<Seq<Seq<bool>>>,
    b: Seq<Seq<Seq<bool>>>,
)
    requires
        standing_wf(s),
        deterministic_panel(s),
        a.len() == b.len(),
        forall|t: int| 0 <= t < a.len() ==> round_shaped(#[trigger] a[t]),
        forall|t: int| 0 <= t < b.len() ==> round_shaped(#[trigger] b[t]),
    ensures
        play_rounds(s, rules, a) == play_rounds(s, rules, b),
        standing_wf(play_rounds(s, rules, a)),
        deterministic_panel(play_rounds(s, rules, a)),
    decreases a.len(),
{
    if a.len() > 0 {
        lemma_rounds_ignore_draws(s, rules, a.drop_last(), b.drop_last());
        let u = play_rounds(s, rules, a.drop_last());
        assert(round_shaped(a[a.len() - 1]));
        assert(round_shaped(b[b.len() - 1]));
        lemma_round_ignores_draws(u, rules, a.last(), b.last());
    }
}

/// With a panel that draws nothing, running `first` iterations and then
/// `second` more leaves the same standing as running `whole` iterations in
/// one go, whenever `whole` has as many iterations as the two together.
pub proof fn lemma_runs_add_up(
    s: Standing,
    rules: RewardTable,
    first: Seq<Seq<Seq<bool>>>,
    second: Seq<Seq<Seq<bool>>>,
    whole: Seq<Seq<Seq<bool>>>,
)
    requires
        standing_wf(s),
        deterministic_panel(s),
        forall|t: int| 0 <= t < first.len() ==> round_shaped(#[trigger] first[t]),
        forall|t: int| 0 <= t < second.len() ==> round_shaped(#[trigger] second[t]),
        forall|t: int| 0 <= t < whole.len() ==> round_shaped(#[trigger] whole[t]),
        whole.len() == first.len() + second.len(),
    ensures
        play_rounds(play_rounds(s, rules, first), rules, second) == play_rounds(s, rules, whole),
{
    lemma_rounds_compose(s, rules, first, second);
    let both = first + second;
    assert forall|t: int| 0 <= t < both.len() implies round_shaped(#[trigger] both[t]) by {
        if t < first.len() {
            assert(both[t] == first[t]);
        } else {
            assert(both[t] == second[t - first.len()]);
        }
    }
    lemma_rounds_ignore_draws(s, rules, both, whole);
}

/// Ranking is a strict order: no opponent ranks before itself, and of two
/// opponents at most one ranks before the other.
proof fn lemma_ranks_before_strict(s: Standing, a: int, b: int)
    ensures
        !ranks_before(s, a, a),
        !(ranks_before(s, a, b) && ranks_before(s, b, a)),
        a != b ==> ranks_before(s, a, b) || ranks_before(s, b, a),
{
}

/// Two leaderboards of one length list the same opponents in the same
/// order: the ranking decides every place.
pub proof fn lemma_leaderboard_unique(s: Standing, x: Seq<int>, y: Seq<int>)
    requires
        is_leaderboard(s, x),
        is_leaderboard(s, y),
        x.len() == y.len(),
    ensures
        x == y,
{
    assert forall|k: int| 0 <= k < x.len() implies x[k] == y[k] by {
        lemma_leaderboard_place(s, x, y, k);
    }
    assert(x =~= y);
}

proof fn lemma_leaderboard_place(s: Standing, x: Seq<int>, y: Seq<int>, k: int)
    requires
        is_leaderboard(s, x),
        is_leaderboard(s, y),
        x.len() == y.len(),
        0 <= k < x.len(),
    ensures
        x[k] == y[k],
    decreases k,
{
    assert forall|m: int| 0 <= m < k implies x[m] == y[m] by {
        lemma_leaderboard_place(s, x, y, m);
    }
    if x[k] != y[k] {
        lemma_ranks_before_strict(s, x[k], y[k]);
        if ranks_before(s, x[k], y[k]) {
            lemma_first_is_placed(s, x, y, k);
        } else {
            assert forall|m: int| 0 <= m < k implies y[m] == x[m] by {
                lemma_leaderboard_place(s, x, y, m);
            }
            lemma_first_is_placed(s, y, x, k);
        }
    }
}

/// Where `x` and `y` agree before place `k`, `x[k]` cannot rank strictly
/// before `y[k]`.
proof fn lemma_first_is_placed(s: Standing, x: Seq<int>, y: Seq<int>, k: int)
    requires
        is_leaderboard(s, x),
        is_leaderboard(s, y),
        x.len() == y.len(),
        0 <= k < x.len(),
        forall|m: int| 0 <= m < k ==> x[m] == y[m],
    ensures
        !ranks_before(s, x[k], y[k]),
{
    if ranks_before(s, x[k], y[k]) {
        lemma_ranks_before_strict(s, x[k], y[k]);
        if y.contains(x[k]) {
            let p = choose|p: int| 0 <= p < y.len() && y[p] == x[k];
            if p < k {
                assert(x[p] == y[p]);
                assert(ranks_before(s, x[p], x[k]));
                lemma_ranks_before_strict(s, x[k], x[k]);
            } else if p == k {
            } else {
                assert(ranks_before(s, y[k], y[p]));
            }
        } else {
            assert(0 <= x[k] < POPULATION_SIZE);
            assert(ranks_before(s, y[k], x[k]));
        }
    }
}

/// A memory of `n` counterparts, none of them met yet.
pub open spec fn blank_memory(n: nat) -> Seq<Option<Decision>> {
    Seq::new(n, |k: int| None)
}

/// The standing of a new tournament on the population `pop`: the panel in
/// its fixed order, opponent `i` playing the genome that `pop[i]` encodes,
/// every memory blank and every score zero.
pub open spec fn is_fresh(s: Standing, pop: Seq<u8>) -> bool {
    &&& s.players.len() == NUM_PLAYERS
    &&& s.opponents.len() == pop.len()
    &&& s.scores.len() == pop.len()
    &&& forall|j: int|
        0 <= j < NUM_PLAYERS ==> (#[trigger] s.players[j]).strategy == panel_strategy(j)
            && s.players[j].prev_self == blank_memory(pop.len()) && s.players[j].prev_other
            == blank_memory(pop.len())
    &&& forall|i: int|
        0 <= i < pop.len() ==> (#[trigger] s.opponents[i]).strategy is Evolved
            && s.opponents[i].strategy->Evolved_0@ == genes_of(pop[i])
            && s.opponents[i].prev_self == blank_memory(NUM_PLAYERS as nat)
            && s.opponents[i].prev_other == blank_memory(NUM_PLAYERS as nat)
    &&& forall|i: int|
        0 <= i < pop.len() ==> (#[trigger] s.scores[i]) == Seq::new(
            NUM_PLAYERS as nat,
            |k: int| (0i32, 0i32),
        )
}

/// Sum of the opponent-side scores of the first `n` cells of a row.
pub open spec fn row_total(row: Seq<(i32, i32)>, n: int) -> int
    decreases n,
{
    if n <= 0 {
        0
    } else {
        row_total(row, n - 1) + row[n - 1].0
    }
}

/// Aggregate fitness of opponent `i`: the sum of its scores against every
/// panel player.
pub open spec fn fitness(s: Standing, i: int) -> int {
    row_total(s.scores[i], NUM_PLAYERS as int)
}

/// Opponent `a` ranks before opponent `b`: it is fitter, or as fit and
/// earlier in the population.
pub open spec fn ranks_before(s: Standing, a: int, b: int) -> bool {
    fitness(s, a) > fitness(s, b) || (fitness(s, a) == fitness(s, b) && a < b)
}

/// `idx` lists, in rank order, opponents that rank before every opponent it
/// leaves out: the head of the ranking by descending fitness, ties kept in
/// population order.
pub open spec fn is_leaderboard(s: Standing, idx: Seq<int>) -> bool {
    &&& forall|k: int| 0 <= k < idx.len() ==> 0 <= #[trigger] idx[k] < POPULATION_SIZE
    &&& forall|k1: int, k2: int|
        0 <= k1 < k2 < idx.len() ==> ranks_before(s, #[trigger] idx[k1], #[trigger] idx[k2])
    &&& forall|k: int, a: int|
        0 <= k < idx.len() && 0 <= a < POPULATION_SIZE && !idx.contains(a) ==> #[trigger] ranks_before(
            s,
            idx[k],
            a,
        )
}

} // verus!
