//! Settling the contest for each destination, and carrying out the moves that
//! won.

use vstd::prelude::*;
use vstd::seq_lib::*;
use rand::rngs::StdRng;
use crate::grid::{Grid, GridView};
use crate::moves::{cell_before, Move};
use crate::random::random_between;
use crate::sorting::sorted_by_destination;

verus! {

/// Whether `winners` settles the contests among `proposals`: every winner is
/// one of the proposals, the winners stand in the strict order of their
/// destinations, so that no two of them go to the same cell, and every cell
/// that some proposal goes to has its winner.
pub open spec fn resolves(proposals: Seq<Move>, winners: Seq<Move>) -> bool {
    &&& forall|k: int| 0 <= k < winners.len() ==> proposals.contains(#[trigger] winners[k])
    &&& forall|j: int, k: int|
        0 <= j < k < winners.len() ==> cell_before(
            (#[trigger] winners[j]).destination,
            (#[trigger] winners[k]).destination,
        )
    &&& forall|i: int|
        0 <= i < proposals.len() ==> has_winner(winners, (#[trigger] proposals[i]).destination)
}

/// Whether one of the winners goes to `cell`.
pub open spec fn has_winner(winners: Seq<Move>, cell: (usize, usize)) -> bool {
    exists|k: int| 0 <= k < winners.len() && (#[trigger] winners[k]).destination == cell
}

/// No cell receives two winners.
pub proof fn lemma_winners_apart(proposals: Seq<Move>, winners: Seq<Move>, j: int, k: int)
    requires
        resolves(proposals, winners),
        0 <= j < winners.len(),
        0 <= k < winners.len(),
        j != k,
    ensures
        winners[j].destination != winners[k].destination,
{
}

/// Settling the contests among the same proposals in another order is
/// settling them all the same.
pub proof fn lemma_resolves_any_order(a: Seq<Move>, b: Seq<Move>, winners: Seq<Move>)
    requires
        a.to_multiset() == b.to_multiset(),
        resolves(a, winners),
    ensures
        resolves(b, winners),
{
    assert forall|k: int| 0 <= k < winners.len() implies b.contains(#[trigger] winners[k]) by {
        to_multiset_contains(a, winners[k]);
        to_multiset_contains(b, winners[k]);
    }
    assert forall|i: int| 0 <= i < b.len() implies has_winner(
        winners,
        (#[trigger] b[i]).destination,
    ) by {
        to_multiset_contains(a, b[i]);
        to_multiset_contains(b, b[i]);
    }
}

/// The end of the run that begins at `start`: the first index behind `start`
/// whose move goes to another cell than the move at `start`, or the length of
/// `moves` where there is none.
pub fn run_end(moves: &Vec<Move>, start: usize) -> (end: usize)
    requires
        start < moves.len(),
    ensures
        start < end <= moves.len(),
        forall|i: int| start <= i < end ==> moves[i].destination == moves[start as int].destination,
        end < moves.len() ==> moves[end as int].destination != moves[start as int].destination,
{
    let first = moves[start];
    let mut end: usize = start + 1;
    while end < moves.len() && moves[end] == first
        invariant
            start < end <= moves.len(),
            first == moves[start as int],
            forall|i: int| start <= i < end ==> moves[i].destination == first.destination,
        decreases moves.len() - end,
    {
        end += 1;
    }
    end
}

/// The moves that stand at the picked places of `moves`, in the order of the
/// picks.
pub open spec fn picked(moves: Seq<Move>, picks: Seq<usize>) -> Seq<Move> {
    Seq::new(picks.len(), |k: int| moves[picks[k] as int])
}

/// Whether one of the picks names a move of `moves` that goes to `cell`.
pub open spec fn has_pick(moves: Seq<Move>, picks: Seq<usize>, cell: (usize, usize)) -> bool {
    exists|k: int|
        0 <= k < picks.len() && (#[trigger] picks[k]) < moves.len()
            && moves[picks[k] as int].destination == cell
}

/// Whether `picks` names exactly one move of every run of the sorted
/// `moves`: the picks are places of `moves` in rising order, no two of them
/// name moves to the same cell, and every cell that some move goes to has
/// its pick.
pub open spec fn one_pick_per_run(moves: Seq<Move>, picks: Seq<usize>) -> bool {
    &&& forall|k: int| 0 <= k < picks.len() ==> (#[trigger] picks[k]) < moves.len()
    &&& forall|j: int, k: int|
        0 <= j < k < picks.len() ==> (#[trigger] picks[j]) < (#[trigger] picks[k])
            && moves[picks[j] as int].destination != moves[picks[k] as int].destination
    &&& forall|i: int|
        0 <= i < moves.len() ==> has_pick(moves, picks, (#[trigger] moves[i]).destination)
}

/// One pick from every run of sorted moves settles the contests among them.
pub proof fn lemma_picks_resolve(moves: Seq<Move>, picks: Seq<usize>)
    requires
        sorted_by_destination(moves),
        one_pick_per_run(moves, picks),
    ensures
        resolves(moves, picked(moves, picks)),
{
    let winners = picked(moves, picks);
    assert forall|k: int| 0 <= k < winners.len() implies moves.contains(#[trigger] winners[k]) by {
        assert(moves[picks[k] as int] == winners[k]);
    }
    assert forall|j: int, k: int| 0 <= j < k < winners.len() implies cell_before(
        (#[trigger] winners[j]).destination,
        (#[trigger] winners[k]).destination,
    ) by {
        assert(picks[j] < picks[k]);
        assert(!cell_before(
            moves[picks[k] as int].destination,
            moves[picks[j] as int].destination,
        ));
    }
    assert forall|i: int| 0 <= i < moves.len() implies has_winner(
        winners,
        (#[trigger] moves[i]).destination,
    ) by {
        assert(has_pick(moves, picks, moves[i].destination));
        let k = choose|k: int|
            0 <= k < picks.len() && (#[trigger] picks[k]) < moves.len()
                && moves[picks[k] as int].destination == moves[i].destination;
        assert(winners[k].destination == moves[i].destination);
    }
}

/// Draws, for every run of moves to one cell, the place of one move of the
/// run at random.
///
/// Whatever the generator gives, the places that come back name one move of
/// every run.
pub fn draw_picks(moves: &Vec<Move>, rng: &mut StdRng) -> (picks: Vec<usize>)
    requires
        sorted_by_destination(moves@),
    ensures
        one_pick_per_run(moves@, picks@),
{
    let n = moves.len();
    let mut picks: Vec<usize> = Vec::new();
    let mut start: usize = 0;
    while start < n
        invariant
            start <= n,
            n == moves.len(),
            sorted_by_destination(moves@),
            forall|k: int| 0 <= k < picks.len() ==> (#[trigger] picks[k]) < start,
            forall|j: int, k: int|
                0 <= j < k < picks.len() ==> (#[trigger] picks[j]) < (#[trigger] picks[k])
                    && moves[picks[j] as int].destination != moves[picks[k] as int].destination,
            forall|k: int, i: int|
                0 <= k < picks.len() && start <= i < n ==> cell_before(
                    moves[(#[trigger] picks[k]) as int].destination,
                    (#[trigger] moves[i]).destination,
                ),
            forall|i: int|
                0 <= i < start ==> has_pick(moves@, picks@, (#[trigger] moves[i]).destination),
        decreases n - start,
    {
        let end = run_end(moves, start);
        let pick = random_between(rng, start, end);
        let ghost before = picks@;
        picks.push(pick);
        proof {
            let s = moves@;
            let p = picks@;
            let last = before.len() as int;
            assert(p[last] == pick);
            assert(forall|k: int| 0 <= k < last ==> p[k] == before[k]);
            // Behind the run come only moves to cells further on.
            assert forall|i: int| end <= i < n implies cell_before(
                s[pick as int].destination,
                (#[trigger] s[i]).destination,
            ) by {
                assert(!cell_before(s[end as int].destination, s[start as int].destination));
                if i > end {
                    assert(!cell_before(s[i].destination, s[end as int].destination));
                }
            }
            assert forall|i: int| 0 <= i < end implies has_pick(
                s,
                p,
                (#[trigger] s[i]).destination,
            ) by {
                if i < start {
                    assert(has_pick(s, before, s[i].destination));
                    let k = choose|k: int|
                        0 <= k < before.len() && (#[trigger] before[k]) < s.len()
                            && s[before[k] as int].destination == s[i].destination;
                    assert(p[k] == before[k]);
                } else {
                    assert(s[p[last] as int].destination == s[i].destination);
                }
            }
        }
        start = end;
    }
    picks
}

/// The moves that stand at the picked places, in the order of the picks.
pub fn pick_winners(moves: &Vec<Move>, picks: &Vec<usize>) -> (winners: Vec<Move>)
    requires
        forall|k: int| 0 <= k < picks.len() ==> (#[trigger] picks[k]) < moves.len(),
    ensures
        winners@ == picked(moves@, picks@),
{
    let mut winners: Vec<Move> = Vec::new();
    let mut k: usize = 0;
    while k < picks.len()
        invariant
            k <= picks.len(),
            forall|k: int| 0 <= k < picks.len() ==> (#[trigger] picks[k]) < moves.len(),
            winners@ == picked(moves@, picks@.take(k as int)),
        decreases picks.len() - k,
    {
        winners.push(moves[picks[k]]);
        assert(winners@ =~= picked(moves@, picks@.take(k + 1)));
        k += 1;
    }
    assert(picks@.take(picks.len() as int) =~= picks@);
    winners
}

/// The grid after the moves have been carried out, one after the other, each
/// by exchanging what its source and its destination hold.
pub open spec fn apply_all(g: GridView, moves: Seq<Move>) -> GridView
    decreases moves.len(),
{
    if moves.len() == 0 {
        g
    } else {
        apply_all(g, moves.drop_last()).swapped(
            (moves.last().source.0 as int, moves.last().source.1 as int),
            (moves.last().destination.0 as int, moves.last().destination.1 as int),
        )
    }
}

/// Whether both cells of every move lie on the grid.
pub open spec fn all_on_grid(g: GridView, moves: Seq<Move>) -> bool {
    forall|k: int|
        0 <= k < moves.len() ==> g.contains(
            (#[trigger] moves[k]).source.0 as int,
            moves[k].source.1 as int,
        ) && g.contains(moves[k].destination.0 as int, moves[k].destination.1 as int)
}

/// Carrying out moves keeps the grid's shape and relocates particles without
/// adding or removing any.
pub proof fn lemma_apply_all_keeps_particles(g: GridView, moves: Seq<Move>)
    requires
        g.wf(),
        all_on_grid(g, moves),
    ensures
        apply_all(g, moves).wf(),
        apply_all(g, moves).width == g.width,
        apply_all(g, moves).height == g.height,
        apply_all(g, moves).cells.to_multiset() == g.cells.to_multiset(),
    decreases moves.len(),
{
    if moves.len() > 0 {
        let m = moves.last();
        lemma_apply_all_keeps_particles(g, moves.drop_last());
        let mid = apply_all(g, moves.drop_last());
        let a = (m.source.0 as int, m.source.1 as int);
        let b = (m.destination.0 as int, m.destination.1 as int);
        mid.lemma_swapped_keeps_particles(a, b);
    }
}

/// Whether the moves touch pairwise different cells: no two leave the same
/// cell, no two enter the same cell, and none enters a cell that one leaves.
pub open spec fn independent(moves: Seq<Move>) -> bool {
    &&& forall|j: int, k: int|
        0 <= j < k < moves.len() ==> (#[trigger] moves[j]).source != (#[trigger] moves[k]).source
    &&& forall|j: int, k: int|
        0 <= j < k < moves.len() ==> (#[trigger] moves[j]).destination
            != (#[trigger] moves[k]).destination
    &&& forall|j: int, k: int|
        0 <= j < moves.len() && 0 <= k < moves.len() ==> (#[trigger] moves[j]).source
            != (#[trigger] moves[k]).destination
}

/// What independent moves do to a single cell: the destination of a move
/// receives what its source held, the source receives what the destination
/// held, and a cell that no move touches keeps what it holds. The order in
/// which the moves are carried out plays no part.
pub proof fn lemma_apply_all_at(g: GridView, moves: Seq<Move>, col: int, row: int)
    requires
        g.wf(),
        all_on_grid(g, moves),
        independent(moves),
        g.contains(col, row),
    ensures
        forall|k: int|
            0 <= k < moves.len() && (#[trigger] moves[k]).enters(col, row) ==> apply_all(
                g,
                moves,
            ).at(col, row) == g.at(moves[k].source.0 as int, moves[k].source.1 as int),
        forall|k: int|
            0 <= k < moves.len() && (#[trigger] moves[k]).leaves(col, row) ==> apply_all(
                g,
                moves,
            ).at(col, row) == g.at(moves[k].destination.0 as int, moves[k].destination.1 as int),
        (forall|k: int|
            0 <= k < moves.len() ==> !(#[trigger] moves[k]).enters(col, row) && !moves[k].leaves(
                col,
                row,
            )) ==> apply_all(g, moves).at(col, row) == g.at(col, row),
    decreases moves.len(),
{
    if moves.len() > 0 {
        let rest = moves.drop_last();
        let m = moves.last();
        let n = moves.len() - 1;
        let a = (m.source.0 as int, m.source.1 as int);
        let b = (m.destination.0 as int, m.destination.1 as int);
        lemma_apply_all_keeps_particles(g, rest);
        let mid = apply_all(g, rest);
        lemma_apply_all_at(g, rest, col, row);
        lemma_apply_all_at(g, rest, a.0, a.1);
        lemma_apply_all_at(g, rest, b.0, b.1);
        mid.lemma_swapped(a, b, col, row);
        assert(mid.at(a.0, a.1) == g.at(a.0, a.1));
        assert(mid.at(b.0, b.1) == g.at(b.0, b.1));
        assert forall|k: int| 0 <= k < moves.len() && (#[trigger] moves[k]).enters(
            col,
            row,
        ) implies apply_all(g, moves).at(col, row) == g.at(
            moves[k].source.0 as int,
            moves[k].source.1 as int,
        ) by {
            if k < n {
                assert(rest[k].enters(col, row));
            }
        }
        assert forall|k: int| 0 <= k < moves.len() && (#[trigger] moves[k]).leaves(
            col,
            row,
        ) implies apply_all(g, moves).at(col, row) == g.at(
            moves[k].destination.0 as int,
            moves[k].destination.1 as int,
        ) by {
            if k < n {
                assert(rest[k].leaves(col, row));
            }
        }
    }
}

/// Carries out the moves one after the other, each by exchanging what its
/// source and its destination hold.
pub fn apply_moves(grid: &mut Grid, moves: &Vec<Move>)
    requires
        all_on_grid(old(grid)@, moves@),
    ensures
        final(grid)@ == apply_all(old(grid)@, moves@),
        final(grid)@.cells.to_multiset() == old(grid)@.cells.to_multiset(),
{
    proof {
        use_type_invariant(&*grid);
    }
    let mut k: usize = 0;
    while k < moves.len()
        invariant
            k <= moves.len(),
            grid.wf(),
            grid@.width == old(grid)@.width,
            grid@.height == old(grid)@.height,
            all_on_grid(old(grid)@, moves@),
            grid@ == apply_all(old(grid)@, moves@.take(k as int)),
        decreases moves.len() - k,
    {
        let m = moves[k];
        proof {
            assert(moves@.take(k + 1).drop_last() =~= moves@.take(k as int));
        }
        grid.swap(m.source, m.destination);
        proof {
            use_type_invariant(&*grid);
        }
        k += 1;
    }
    proof {
        assert(moves@.take(moves.len() as int) =~= moves@);
        lemma_apply_all_keeps_particles(old(grid)@, moves@);
    }
}

} // verus!
