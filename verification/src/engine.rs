//! One tick of the simulation: collect the proposals, settle the contests,
//! carry out the winning moves, drop a new grain.
//!
//! Chance enters a tick as a sequence of numbers: one place in every run of
//! the sorted proposals, and the column of the new grain. What a tick makes
//! of a grid is a function of the grid and of those numbers.

use vstd::prelude::*;
use rand::rngs::StdRng;
use crate::grid::{Grid, GridView};
use crate::moves::Move;
use crate::particle::Particle;
use crate::random::random_between;
use crate::resolve::{all_on_grid, apply_all, apply_moves, draw_picks, has_winner};
use crate::resolve::{independent, resolves};
use crate::resolve::{lemma_apply_all_at, lemma_apply_all_keeps_particles, lemma_picks_resolve};
use crate::resolve::{lemma_resolves_any_order, lemma_winners_apart, one_pick_per_run};
use crate::resolve::{pick_winners, picked};
use crate::rules::{collect_moves, is_proposal, proposals};
use crate::rules::lemma_proposals_are_candidates;
use crate::sorting::{lemma_sorted_moves, sort_by_destination, sorted_moves};

verus! {

/// The grid with a grain of sand written to the top cell of column `col`,
/// whatever that cell held.
pub open spec fn with_grain(g: GridView, col: int) -> GridView {
    g.with_cell(col, g.height - 1, Particle::Sand)
}

/// The proposals of a grid in the order in which their contests are settled.
pub open spec fn sorted_proposals(g: GridView) -> Seq<Move> {
    sorted_moves(proposals(g))
}

/// Whether `picks` can be drawn in a tick on `g`: it names one place in
/// every run of the sorted proposals.
pub open spec fn picks_fit(g: GridView, picks: Seq<usize>) -> bool {
    one_pick_per_run(sorted_proposals(g), picks)
}

/// The moves that win in a tick on `g` in which `picks` is drawn.
pub open spec fn winners_of(g: GridView, picks: Seq<usize>) -> Seq<Move> {
    picked(sorted_proposals(g), picks)
}

/// The grid after the moves of a tick in which `picks` is drawn, before any
/// grain is dropped.
pub open spec fn after_moves(g: GridView, picks: Seq<usize>) -> GridView {
    apply_all(g, winners_of(g, picks))
}

/// The grid that a tick leaves behind when `picks` is drawn for the contests
/// and `col` for the column of the new grain. Without `spawn` no grain is
/// dropped and `col` plays no part.
pub open spec fn after_tick(g: GridView, picks: Seq<usize>, col: int, spawn: bool) -> GridView {
    if spawn {
        with_grain(after_moves(g, picks), col)
    } else {
        after_moves(g, picks)
    }
}

/// The winners among the proposals of a grid are themselves proposals of
/// that grid, so that all their cells lie on it.
pub proof fn lemma_winners_on_grid(g: GridView, winners: Seq<Move>)
    requires
        resolves(proposals(g), winners),
    ensures
        forall|k: int| 0 <= k < winners.len() ==> is_proposal(g, #[trigger] winners[k]),
        all_on_grid(g, winners),
{
    assert forall|k: int| 0 <= k < winners.len() implies is_proposal(g, #[trigger] winners[k])
        && g.contains(winners[k].source.0 as int, winners[k].source.1 as int) && g.contains(
        winners[k].destination.0 as int,
        winners[k].destination.1 as int,
    ) by {
        lemma_proposals_are_candidates(g, winners[k]);
    }
}

/// The winners among the proposals of a grid touch pairwise different
/// cells: each leaves a cell of its own, each enters a cell of its own, and
/// none enters a cell that another leaves.
pub proof fn lemma_winners_independent(g: GridView, winners: Seq<Move>)
    requires
        resolves(proposals(g), winners),
    ensures
        independent(winners),
{
    // Two winners that left one cell would be one and the same proposal and
    // would go to one cell. And a cell that a winner leaves holds sand, while
    // a cell that a winner enters does not.
    lemma_winners_on_grid(g, winners);
}

/// What a tick's moves do to a single cell. The destination of a winner
/// holds sand afterwards; its source holds what the destination held, which
/// is nothing or water; and a cell that no winner touches holds what it held.
pub proof fn lemma_winners_relocate(g: GridView, winners: Seq<Move>, col: int, row: int)
    requires
        g.wf(),
        resolves(proposals(g), winners),
        g.contains(col, row),
    ensures
        forall|k: int|
            0 <= k < winners.len() && (#[trigger] winners[k]).enters(col, row) ==> apply_all(
                g,
                winners,
            ).at(col, row) == Particle::Sand,
        forall|k: int|
            0 <= k < winners.len() && (#[trigger] winners[k]).leaves(col, row) ==> apply_all(
                g,
                winners,
            ).at(col, row) == g.at(
                winners[k].destination.0 as int,
                winners[k].destination.1 as int,
            ) && apply_all(g, winners).at(col, row).gives_way(),
        (forall|k: int|
            0 <= k < winners.len() ==> !(#[trigger] winners[k]).enters(col, row)
                && !winners[k].leaves(col, row)) ==> apply_all(g, winners).at(col, row) == g.at(
            col,
            row,
        ),
{
    lemma_winners_on_grid(g, winners);
    lemma_winners_independent(g, winners);
    lemma_apply_all_at(g, winners, col, row);
}

/// Whatever is drawn in a tick, the moves that win settle the contests among
/// the proposals of the grid.
pub proof fn lemma_picks_settle(g: GridView, picks: Seq<usize>)
    requires
        picks_fit(g, picks),
    ensures
        resolves(proposals(g), winners_of(g, picks)),
        all_on_grid(g, winners_of(g, picks)),
{
    lemma_sorted_moves(proposals(g));
    lemma_picks_resolve(sorted_proposals(g), picks);
    lemma_resolves_any_order(sorted_proposals(g), proposals(g), winners_of(g, picks));
    lemma_winners_on_grid(g, winners_of(g, picks));
}

/// No cell receives more than one particle in a tick: the moves that are
/// carried out go to pairwise different cells.
pub proof fn lemma_no_cell_entered_twice(g: GridView, picks: Seq<usize>, j: int, k: int)
    requires
        picks_fit(g, picks),
        0 <= j < picks.len(),
        0 <= k < picks.len(),
        j != k,
    ensures
        winners_of(g, picks)[j].destination != winners_of(g, picks)[k].destination,
{
    lemma_picks_settle(g, picks);
    lemma_winners_apart(proposals(g), winners_of(g, picks), j, k);
}

/// What becomes of a proposal in a tick. The cell that it goes to holds sand
/// after the moves, whoever won it. Where the proposal is among the winners,
/// its source holds what that cell held; where it is not, the grain stays in
/// its source.
pub proof fn lemma_proposal_outcome(g: GridView, picks: Seq<usize>, m: Move)
    requires
        g.wf(),
        picks_fit(g, picks),
        is_proposal(g, m),
    ensures
        after_moves(g, picks).at(m.destination.0 as int, m.destination.1 as int)
            == Particle::Sand,
        winners_of(g, picks).contains(m) ==> after_moves(g, picks).at(
            m.source.0 as int,
            m.source.1 as int,
        ) == g.at(m.destination.0 as int, m.destination.1 as int),
        !winners_of(g, picks).contains(m) ==> after_moves(g, picks).at(
            m.source.0 as int,
            m.source.1 as int,
        ) == Particle::Sand,
{
    let winners = winners_of(g, picks);
    lemma_picks_settle(g, picks);
    lemma_winners_on_grid(g, winners);
    lemma_proposals_are_candidates(g, m);
    lemma_winners_relocate(g, winners, m.destination.0 as int, m.destination.1 as int);
    lemma_winners_relocate(g, winners, m.source.0 as int, m.source.1 as int);
    let i = choose|i: int| 0 <= i < proposals(g).len() && proposals(g)[i] == m;
    assert(has_winner(winners, proposals(g)[i].destination));
    let k = choose|k: int|
        0 <= k < winners.len() && (#[trigger] winners[k]).destination == m.destination;
    assert(winners[k].enters(m.destination.0 as int, m.destination.1 as int));
    if winners.contains(m) {
        let w = choose|w: int| 0 <= w < winners.len() && winners[w] == m;
        assert(winners[w].leaves(m.source.0 as int, m.source.1 as int));
    } else {
        // A winner that left the source of `m` would be `m`, and none enters
        // it, since it holds sand.
        assert forall|j: int| 0 <= j < winners.len() implies !(#[trigger] winners[j]).enters(
            m.source.0 as int,
            m.source.1 as int,
        ) && !winners[j].leaves(m.source.0 as int, m.source.1 as int) by {
            assert(is_proposal(g, winners[j]));
            if winners[j].leaves(m.source.0 as int, m.source.1 as int) {
                assert(winners[j] == m);
            }
        }
    }
}

/// A cell that no proposal touches holds after the moves of a tick what it
/// held before. In particular water stays where it is until sand sinks into
/// its cell.
pub proof fn lemma_untouched_cell(g: GridView, picks: Seq<usize>, col: int, row: int)
    requires
        g.wf(),
        picks_fit(g, picks),
        g.contains(col, row),
        forall|m: Move| #[trigger] is_proposal(g, m) ==> !m.enters(col, row) && !m.leaves(col, row),
    ensures
        after_moves(g, picks).at(col, row) == g.at(col, row),
{
    let winners = winners_of(g, picks);
    lemma_picks_settle(g, picks);
    lemma_winners_on_grid(g, winners);
    lemma_winners_relocate(g, winners, col, row);
}

/// The moves of a tick conserve mass: they keep every particle, so that
/// afterwards there is as much sand, as much water and as much room as
/// before.
pub proof fn lemma_moves_conserve_mass(g: GridView, picks: Seq<usize>)
    requires
        g.wf(),
        picks_fit(g, picks),
    ensures
        after_moves(g, picks).wf(),
        after_moves(g, picks).width == g.width,
        after_moves(g, picks).height == g.height,
        after_moves(g, picks).cells.to_multiset() == g.cells.to_multiset(),
        forall|p: Particle| #[trigger] after_moves(g, picks).census(p) == g.census(p),
        after_moves(g, picks).occupied() == g.occupied(),
        after_tick(g, picks, 0, false).occupied() == g.occupied(),
{
    lemma_picks_settle(g, picks);
    lemma_apply_all_keeps_particles(g, winners_of(g, picks));
}

/// What a whole tick does to the number of occupied cells: the moves leave
/// it as it is, and the new grain adds one where it lands on an empty cell
/// and nothing where it lands on a cell that holds something.
pub proof fn lemma_tick_occupied(g: GridView, picks: Seq<usize>, col: int)
    requires
        g.wf(),
        picks_fit(g, picks),
        0 <= col < g.width,
    ensures
        after_tick(g, picks, col, true).occupied() == g.occupied() + (if after_moves(g, picks).at(
            col,
            g.height - 1,
        ) == Particle::Empty {
            1int
        } else {
            0int
        }),
{
    lemma_moves_conserve_mass(g, picks);
    after_moves(g, picks).lemma_with_cell_occupied(col, g.height - 1, Particle::Sand);
}

/// Mass conservation over a tick: where the new grain lands on a cell that
/// the moves have left empty, the grid holds exactly one particle more after
/// the tick than before it.
pub proof fn lemma_tick_adds_one_grain(g: GridView, picks: Seq<usize>, col: int)
    requires
        g.wf(),
        picks_fit(g, picks),
        0 <= col < g.width,
        after_moves(g, picks).at(col, g.height - 1) == Particle::Empty,
    ensures
        after_tick(g, picks, col, true).occupied() == g.occupied() + 1,
{
    lemma_tick_occupied(g, picks, col);
}

/// A top cell that is empty before a tick is still empty when the grain is
/// dropped, so that a grain dropped there adds one particle to the grid.
pub proof fn lemma_empty_top_stays_empty(g: GridView, picks: Seq<usize>, col: int)
    requires
        g.wf(),
        picks_fit(g, picks),
        0 <= col < g.width,
        g.at(col, g.height - 1) == Particle::Empty,
    ensures
        after_moves(g, picks).at(col, g.height - 1) == Particle::Empty,
        after_tick(g, picks, col, true).occupied() == g.occupied() + 1,
{
    let row = g.height - 1;
    let winners = winners_of(g, picks);
    lemma_picks_settle(g, picks);
    lemma_winners_relocate(g, winners, col, row);
    // No winner leaves the cell, which holds no sand, and none enters it,
    // since a winner comes from a row above the one it goes to.
    assert forall|k: int| 0 <= k < winners.len() implies !(#[trigger] winners[k]).enters(col, row)
        && !winners[k].leaves(col, row) by {
        lemma_proposals_are_candidates(g, winners[k]);
    }
    lemma_tick_occupied(g, picks, col);
}

/// A tick is determined by the grid it starts from and by the numbers that
/// are drawn in it: two ticks that start from the same grid and draw the same
/// sequence of numbers leave the same grid.
pub proof fn lemma_tick_deterministic(
    first: GridView,
    second: GridView,
    first_picks: Seq<usize>,
    second_picks: Seq<usize>,
    first_col: int,
    second_col: int,
    spawn: bool,
)
    requires
        first == second,
        first_picks == second_picks,
        first_col == second_col,
    ensures
        after_tick(first, first_picks, first_col, spawn) == after_tick(
            second,
            second_picks,
            second_col,
            spawn,
        ),
{
}

/// Writes a grain of sand to the top cell of column `col`, whatever the cell
/// held.
pub fn spawn_at(grid: &mut Grid, col: usize)
    requires
        col < old(grid)@.width,
    ensures
        final(grid)@ == with_grain(old(grid)@, col as int),
{
    proof {
        use_type_invariant(&*grid);
    }
    let (_, height) = grid.dimensions();
    let _ = grid.set(col, height - 1, Particle::Sand);
}

/// Writes a grain of sand to the top cell of a column picked at random.
pub fn spawn(grid: &mut Grid, rng: &mut StdRng)
    ensures
        exists|col: int|
            0 <= col < old(grid)@.width && final(grid)@ == #[trigger] with_grain(old(grid)@, col),
{
    proof {
        use_type_invariant(&*grid);
    }
    let (width, _) = grid.dimensions();
    let col = random_between(rng, 0, width);
    spawn_at(grid, col);
}

/// Lets the sand fall by one step: collects the proposals of all cells,
/// sorts them by destination, draws one winner for every destination at
/// random and carries the winners out. No grain is dropped.
pub fn move_sand(grid: &mut Grid, rng: &mut StdRng)
    ensures
        exists|picks: Seq<usize>|
            picks_fit(old(grid)@, picks) && final(grid)@ == #[trigger] after_moves(
                old(grid)@,
                picks,
            ),
        final(grid)@.width == old(grid)@.width,
        final(grid)@.height == old(grid)@.height,
        final(grid)@.cells.to_multiset() == old(grid)@.cells.to_multiset(),
{
    let mut moves = collect_moves(grid);
    sort_by_destination(&mut moves);
    let picks = draw_picks(&moves, rng);
    let winners = pick_winners(&moves, &picks);
    proof {
        use_type_invariant(&*grid);
        lemma_picks_settle(grid@, picks@);
        lemma_moves_conserve_mass(grid@, picks@);
    }
    apply_moves(grid, &winners);
    assert(grid@ == after_moves(old(grid)@, picks@));
}

/// The engine that advances a grid by one tick at a time. It keeps nothing
/// from one tick to the next but the choice whether grains are dropped.
#[derive(Clone, Copy, Debug)]
pub struct TickEngine {
    spawn: bool,
}

impl Default for TickEngine {
    /// The engine that drops a new grain at the end of every tick.
    fn default() -> (engine: TickEngine)
        ensures
            engine.spawns(),
    {
        TickEngine { spawn: true }
    }
}

impl TickEngine {
    /// Whether every tick ends by dropping a new grain into the top row.
    pub closed spec fn spawns(&self) -> bool {
        self.spawn
    }

    /// An engine that drops a new grain at the end of every tick.
    pub fn new() -> (engine: TickEngine)
        ensures
            engine.spawns(),
    {
        TickEngine { spawn: true }
    }

    /// An engine that lets the sand fall and drops no new grain.
    pub fn without_spawn() -> (engine: TickEngine)
        ensures
            !engine.spawns(),
    {
        TickEngine { spawn: false }
    }

    /// Whether every tick ends by dropping a new grain into the top row.
    pub fn spawn_enabled(&self) -> (enabled: bool)
        ensures
            enabled == self.spawns(),
    {
        self.spawn
    }

    /// Advances the grid by one tick.
    ///
    /// Whatever the generator gives, the grid that is left is the one that
    /// follows from drawing one place in every run of the sorted proposals
    /// and, where the engine drops grains, one column of the grid.
    pub fn step(&self, grid: &mut Grid, rng: &mut StdRng)
        ensures
            exists|picks: Seq<usize>, col: int|
                #![trigger after_tick(old(grid)@, picks, col, self.spawns())]
                picks_fit(old(grid)@, picks) && 0 <= col < old(grid)@.width && final(grid)@
                    == after_tick(old(grid)@, picks, col, self.spawns()),
            final(grid)@.width == old(grid)@.width,
            final(grid)@.height == old(grid)@.height,
            old(grid)@.occupied() <= final(grid)@.occupied() <= old(grid)@.occupied() + 1,
            !self.spawns() ==> final(grid)@.cells.to_multiset() == old(grid)@.cells.to_multiset(),
    {
        let ghost before = grid@;
        proof {
            use_type_invariant(&*grid);
        }
        move_sand(grid, rng);
        let ghost moved = grid@;
        let ghost picks = choose|picks: Seq<usize>|
            picks_fit(before, picks) && moved == #[trigger] after_moves(before, picks);
        proof {
            use_type_invariant(&*grid);
            lemma_moves_conserve_mass(before, picks);
        }
        if self.spawn {
            spawn(grid, rng);
            proof {
                let col = choose|col: int|
                    0 <= col < moved.width && grid@ == #[trigger] with_grain(moved, col);
                lemma_tick_occupied(before, picks, col);
                assert(grid@ == after_tick(before, picks, col, self.spawns()));
            }
        } else {
            assert(grid@ == after_tick(before, picks, 0, self.spawns()));
        }
    }
}

} // verus!
