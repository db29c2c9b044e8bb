//! Bringing the proposed moves into the order of their destinations.
//!
//! The scan hands the proposals over nearly in order, since a grain never
//! moves further than to a neighbouring column. They are therefore sorted by
//! insertion, which is quick on such input and keeps the moves to one cell in
//! the order of the scan.

use vstd::prelude::*;
use vstd::seq_lib::*;
use crate::moves::{cell_before, Move};

verus! {

/// Whether the moves stand in the order of their destinations: no move is
/// followed by one whose destination comes before its own.
pub open spec fn sorted_by_destination(moves: Seq<Move>) -> bool {
    forall|i: int, j: int|
        0 <= i < j < moves.len() ==> !cell_before(moves[j].destination, moves[i].destination)
}

/// The moves that go to `cell`, in the order in which they stand in `moves`.
pub open spec fn aimed_at(moves: Seq<Move>, cell: (usize, usize)) -> Seq<Move> {
    moves.filter(|m: Move| m.destination == cell)
}

/// The sorted moves with `m` put in behind the last of them whose
/// destination does not come after its own.
pub open spec fn inserted(sorted: Seq<Move>, m: Move) -> Seq<Move>
    decreases sorted.len(),
{
    if sorted.len() > 0 && cell_before(m.destination, sorted.last().destination) {
        inserted(sorted.drop_last(), m).push(sorted.last())
    } else {
        sorted.push(m)
    }
}

/// The moves in the order of their destinations, those to one cell in the
/// order in which they stand in `moves`.
pub open spec fn sorted_moves(moves: Seq<Move>) -> Seq<Move>
    decreases moves.len(),
{
    if moves.len() == 0 {
        moves
    } else {
        inserted(sorted_moves(moves.drop_last()), moves.last())
    }
}

/// Putting a move into sorted moves leaves them sorted, adds that move and
/// no other, and puts it behind all moves that go to the same cell.
pub proof fn lemma_inserted(sorted: Seq<Move>, m: Move)
    requires
        sorted_by_destination(sorted),
    ensures
        sorted_by_destination(inserted(sorted, m)),
        inserted(sorted, m).len() == sorted.len() + 1,
        inserted(sorted, m).to_multiset() == sorted.to_multiset().insert(m),
        forall|cell: (usize, usize)| #[trigger]
            aimed_at(inserted(sorted, m), cell) == if m.destination == cell {
                aimed_at(sorted, cell).push(m)
            } else {
                aimed_at(sorted, cell)
            },
    decreases sorted.len(),
{
    let result = inserted(sorted, m);
    if sorted.len() > 0 && cell_before(m.destination, sorted.last().destination) {
        let rest = sorted.drop_last();
        let last = sorted.last();
        let inner = inserted(rest, m);
        lemma_inserted(rest, m);
        assert(sorted =~= rest.push(last));
        to_multiset_build(inner, last);
        to_multiset_build(rest, last);
        assert(result.to_multiset() =~= sorted.to_multiset().insert(m));
        // Every move of `inner` is `m` or one of `rest`, and none of them has
        // to come after `last`.
        assert forall|i: int| 0 <= i < inner.len() implies !cell_before(
            last.destination,
            (#[trigger] inner[i]).destination,
        ) by {
            to_multiset_contains(inner, inner[i]);
            to_multiset_contains(rest, inner[i]);
            if inner[i] != m {
                let k = choose|k: int| 0 <= k < rest.len() && rest[k] == inner[i];
                assert(sorted[k] == inner[i]);
            }
        }
        assert forall|i: int, j: int| 0 <= i < j < result.len() implies !cell_before(
            result[j].destination,
            result[i].destination,
        ) by {
            if j < inner.len() {
                assert(!cell_before(inner[j].destination, inner[i].destination));
            } else {
                assert(!cell_before(last.destination, inner[i].destination));
            }
        }
        assert forall|cell: (usize, usize)| #[trigger]
            aimed_at(result, cell) == if m.destination == cell {
                aimed_at(sorted, cell).push(m)
            } else {
                aimed_at(sorted, cell)
            } by {
            let goes_there = |x: Move| x.destination == cell;
            inner.lemma_filter_push(last, goes_there);
            rest.lemma_filter_push(last, goes_there);
            assert(aimed_at(inner, cell) == if m.destination == cell {
                aimed_at(rest, cell).push(m)
            } else {
                aimed_at(rest, cell)
            });
        }
    } else {
        to_multiset_build(sorted, m);
        assert forall|i: int, j: int| 0 <= i < j < result.len() implies !cell_before(
            result[j].destination,
            result[i].destination,
        ) by {
            if j == sorted.len() {
                assert(!cell_before(sorted.last().destination, sorted[i].destination));
            } else {
                assert(!cell_before(sorted[j].destination, sorted[i].destination));
            }
        }
        assert forall|cell: (usize, usize)| #[trigger]
            aimed_at(result, cell) == if m.destination == cell {
                aimed_at(sorted, cell).push(m)
            } else {
                aimed_at(sorted, cell)
            } by {
            sorted.lemma_filter_push(m, |x: Move| x.destination == cell);
        }
    }
}

/// The sorted moves are sorted, they are the given moves and no others, and
/// the moves to each single cell stand in them as they stood.
pub proof fn lemma_sorted_moves(moves: Seq<Move>)
    ensures
        sorted_by_destination(sorted_moves(moves)),
        sorted_moves(moves).len() == moves.len(),
        sorted_moves(moves).to_multiset() == moves.to_multiset(),
        forall|cell: (usize, usize)| #[trigger]
            aimed_at(sorted_moves(moves), cell) == aimed_at(moves, cell),
    decreases moves.len(),
{
    if moves.len() > 0 {
        let rest = moves.drop_last();
        let last = moves.last();
        lemma_sorted_moves(rest);
        lemma_inserted(sorted_moves(rest), last);
        assert(moves =~= rest.push(last));
        to_multiset_build(rest, last);
        assert forall|cell: (usize, usize)| #[trigger]
            aimed_at(sorted_moves(moves), cell) == aimed_at(moves, cell) by {
            rest.lemma_filter_push(last, |x: Move| x.destination == cell);
            assert(aimed_at(sorted_moves(rest), cell) == aimed_at(rest, cell));
        }
    }
}

/// Sorts the moves by destination: by column, and by row within a column.
/// Moves to the same cell keep the order in which they stood.
pub fn sort_by_destination(moves: &mut Vec<Move>)
    ensures
        final(moves)@ == sorted_moves(old(moves)@),
        final(moves)@.len() == old(moves)@.len(),
        sorted_by_destination(final(moves)@),
        final(moves)@.to_multiset() == old(moves)@.to_multiset(),
        forall|cell: (usize, usize)| #[trigger]
            aimed_at(final(moves)@, cell) == aimed_at(old(moves)@, cell),
{
    let n = moves.len();
    let mut i: usize = 0;
    while i < n
        invariant
            i <= n,
            moves.len() == n,
            old(moves)@.len() == n,
            moves@.take(i as int) == sorted_moves(old(moves)@.take(i as int)),
            moves@.skip(i as int) == old(moves)@.skip(i as int),
        decreases n - i,
    {
        let ghost prefix = moves@.take(i as int);
        let ghost entering = moves@[i as int];
        let mut j: usize = i;
        assert(moves@.subrange(j + 1, i + 1) =~= Seq::<Move>::empty());
        assert(moves@.skip(i as int)[0] == old(moves)@.skip(i as int)[0]);
        assert(moves@.skip(i + 1) =~= moves@.skip(i as int).skip(1));
        assert(old(moves)@.skip(i + 1) =~= old(moves)@.skip(i as int).skip(1));
        while j > 0 && moves[j].precedes(&moves[j - 1])
            invariant
                j <= i < n,
                moves.len() == n,
                old(moves)@.len() == n,
                moves@[j as int] == entering,
                inserted(prefix, entering) == inserted(moves@.take(j as int), entering)
                    + moves@.subrange(j + 1, i + 1),
                moves@.skip(i + 1) == old(moves)@.skip(i + 1),
            decreases j,
        {
            let ghost before = moves@;
            let lower = moves[j - 1];
            let upper = moves[j];
            moves[j - 1] = upper;
            moves[j] = lower;
            proof {
                assert(before.take(j as int).drop_last() =~= moves@.take(j - 1));
                assert(before.take(j as int).last() == lower);
                assert(moves@.subrange(j as int, i + 1) =~= seq![lower] + before.subrange(
                    j + 1,
                    i + 1,
                ));
                assert(inserted(moves@.take(j - 1), entering).push(lower) + before.subrange(
                    j + 1,
                    i + 1,
                ) =~= inserted(moves@.take(j - 1), entering) + moves@.subrange(j as int, i + 1));
                assert(moves@.skip(i + 1) =~= before.skip(i + 1));
            }
            j -= 1;
        }
        proof {
            assert(moves@.take(j as int).push(entering) + moves@.subrange(j + 1, i + 1)
                =~= moves@.take(i + 1));
            assert(old(moves)@.take(i + 1).drop_last() =~= old(moves)@.take(i as int));
            assert(old(moves)@.take(i + 1).last() == entering);
            assert(moves@.skip(i + 1) =~= old(moves)@.skip(i + 1));
        }
        i += 1;
    }
    proof {
        assert(moves@.take(n as int) =~= moves@);
        assert(old(moves)@.take(n as int) =~= old(moves)@);
        lemma_sorted_moves(old(moves)@);
    }
}

} // verus!
