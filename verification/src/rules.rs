//! The rule by which a cell proposes a move, and the scan that collects the
//! proposals of a whole grid.

use vstd::prelude::*;
use crate::grid::{Grid, GridView};
use crate::moves::Move;
use crate::particle::Particle;

verus! {

/// Whether a falling grain may go to `(col, row)`: the cell lies on the grid
/// and holds nothing, or water.
pub open spec fn open_to_sand(g: GridView, col: int, row: int) -> bool {
    g.contains(col, row) && g.at(col, row).gives_way()
}

/// The move that the cell `(col, row)` proposes, if it proposes one.
///
/// Only sand proposes. It goes straight down where it can, else down and to
/// the left, else down and to the right, and stays where none of the three
/// cells is open to it.
pub open spec fn candidate(g: GridView, col: usize, row: usize) -> Option<Move> {
    if !g.contains(col as int, row as int) || g.at(col as int, row as int) != Particle::Sand {
        None
    } else if open_to_sand(g, col as int, row - 1) {
        Some(Move { source: (col, row), destination: (col, (row - 1) as usize) })
    } else if open_to_sand(g, col - 1, row - 1) {
        Some(Move { source: (col, row), destination: ((col - 1) as usize, (row - 1) as usize) })
    } else if open_to_sand(g, col + 1, row - 1) {
        Some(Move { source: (col, row), destination: ((col + 1) as usize, (row - 1) as usize) })
    } else {
        None
    }
}

/// Whether `m` is the move that its source proposes in `g`.
pub open spec fn is_proposal(g: GridView, m: Move) -> bool {
    candidate(g, m.source.0, m.source.1) == Some(m)
}

/// A proposed move leaves a grain of sand, arrives one row further down in
/// the same column or a neighbouring one, at a cell that is open to sand, and
/// both of its cells lie on the grid.
pub proof fn lemma_proposal_shape(g: GridView, m: Move)
    requires
        is_proposal(g, m),
    ensures
        g.contains(m.source.0 as int, m.source.1 as int),
        g.contains(m.destination.0 as int, m.destination.1 as int),
        g.at(m.source.0 as int, m.source.1 as int) == Particle::Sand,
        g.at(m.destination.0 as int, m.destination.1 as int).gives_way(),
        m.destination.1 + 1 == m.source.1,
        m.source.0 - 1 <= m.destination.0 <= m.source.0 + 1,
{
}

/// No cell of any grid ever proposes a move to a cell outside the grid: a
/// proposed move starts at the cell that proposes it and ends on the grid.
pub proof fn lemma_candidate_on_grid(g: GridView, col: usize, row: usize)
    ensures
        candidate(g, col, row) matches Some(m) ==> m.source == (col, row) && g.contains(
            m.source.0 as int,
            m.source.1 as int,
        ) && g.contains(m.destination.0 as int, m.destination.1 as int),
{
}

/// The proposal of one cell as a sequence: one move, or none.
pub open spec fn cell_proposals(g: GridView, col: usize, row: usize) -> Seq<Move> {
    match candidate(g, col, row) {
        Some(m) => seq![m],
        None => Seq::empty(),
    }
}

/// The proposals of the lowest `rows` cells of column `col`, from row 0
/// upwards.
pub open spec fn column_proposals(g: GridView, col: usize, rows: usize) -> Seq<Move>
    decreases rows,
{
    if rows == 0 {
        Seq::empty()
    } else {
        column_proposals(g, col, (rows - 1) as usize) + cell_proposals(
            g,
            col,
            (rows - 1) as usize,
        )
    }
}

/// The proposals of the first `cols` columns, column after column.
pub open spec fn proposals_upto(g: GridView, cols: usize) -> Seq<Move>
    decreases cols,
{
    if cols == 0 {
        Seq::empty()
    } else {
        proposals_upto(g, (cols - 1) as usize) + column_proposals(
            g,
            (cols - 1) as usize,
            g.height,
        )
    }
}

/// The proposals of the whole grid in the order of the scan: column after
/// column, each column from row 0 upwards.
pub open spec fn proposals(g: GridView) -> Seq<Move> {
    proposals_upto(g, g.width)
}

/// The first `rows` cells of a column contribute exactly the moves that their
/// cells propose.
pub proof fn lemma_column_proposals(g: GridView, col: usize, rows: usize, m: Move)
    ensures
        column_proposals(g, col, rows).contains(m) <==> (m.source.0 == col && m.source.1 < rows
            && is_proposal(g, m)),
    decreases rows,
{
    if rows > 0 {
        let below = column_proposals(g, col, (rows - 1) as usize);
        let top = cell_proposals(g, col, (rows - 1) as usize);
        lemma_column_proposals(g, col, (rows - 1) as usize, m);
        lemma_contains_in_sum(below, top, m);
        if m.source.0 == col && m.source.1 == rows - 1 && is_proposal(g, m) {
            assert(top[0] == m);
        }
    }
}

/// The first `cols` columns contribute exactly the moves that their cells
/// propose.
pub proof fn lemma_proposals_upto(g: GridView, cols: usize, m: Move)
    requires
        cols <= g.width,
    ensures
        proposals_upto(g, cols).contains(m) <==> (m.source.0 < cols && is_proposal(g, m)),
    decreases cols,
{
    if cols > 0 {
        let left = proposals_upto(g, (cols - 1) as usize);
        let column = column_proposals(g, (cols - 1) as usize, g.height);
        lemma_proposals_upto(g, (cols - 1) as usize, m);
        lemma_column_proposals(g, (cols - 1) as usize, g.height, m);
        lemma_contains_in_sum(left, column, m);
    }
}

/// A move is among the proposals of a grid exactly when its source proposes
/// it.
pub proof fn lemma_proposals_are_candidates(g: GridView, m: Move)
    ensures
        proposals(g).contains(m) <==> is_proposal(g, m),
{
    lemma_proposals_upto(g, g.width, m);
}

/// What two sequences hold together is what one of them holds.
pub proof fn lemma_contains_in_sum<A>(a: Seq<A>, b: Seq<A>, x: A)
    ensures
        (a + b).contains(x) <==> (a.contains(x) || b.contains(x)),
{
    if a.contains(x) {
        let i = choose|i: int| 0 <= i < a.len() && a[i] == x;
        assert((a + b)[i] == x);
    }
    if b.contains(x) {
        let i = choose|i: int| 0 <= i < b.len() && b[i] == x;
        assert((a + b)[a.len() + i] == x);
    }
}

/// The move that the cell `(col, row)` proposes, if it proposes one. A cell
/// outside the grid proposes none.
pub fn propose(grid: &Grid, col: usize, row: usize) -> (proposal: Option<Move>)
    ensures
        proposal == candidate(grid@, col, row),
        proposal matches Some(m) ==> grid@.contains(m.source.0 as int, m.source.1 as int)
            && grid@.contains(m.destination.0 as int, m.destination.1 as int),
{
    let (width, _) = grid.dimensions();
    if !grid.in_bounds(col, row) || grid.at(col, row) != Particle::Sand || row == 0 {
        return None;
    }
    if grid.at(col, row - 1).yields() {
        Some(Move { source: (col, row), destination: (col, row - 1) })
    } else if col > 0 && grid.at(col - 1, row - 1).yields() {
        Some(Move { source: (col, row), destination: (col - 1, row - 1) })
    } else if col < width - 1 && grid.at(col + 1, row - 1).yields() {
        Some(Move { source: (col, row), destination: (col + 1, row - 1) })
    } else {
        None
    }
}

/// Scans the grid, column after column and each column from row 0 upwards,
/// and collects the move of every cell that proposes one. The grid is only
/// read.
pub fn collect_moves(grid: &Grid) -> (moves: Vec<Move>)
    ensures
        moves@ == proposals(grid@),
        forall|i: int| 0 <= i < moves.len() ==> is_proposal(grid@, #[trigger] moves[i]),
        forall|i: int|
            0 <= i < moves.len() ==> grid@.contains(
                (#[trigger] moves[i]).destination.0 as int,
                moves[i].destination.1 as int,
            ),
{
    let (width, height) = grid.dimensions();
    let mut moves: Vec<Move> = Vec::new();
    let mut col: usize = 0;
    while col < width
        invariant
            col <= width,
            width == grid@.width,
            height == grid@.height,
            moves@ == proposals_upto(grid@, col),
        decreases width - col,
    {
        let mut row: usize = 0;
        while row < height
            invariant
                row <= height,
                col < width,
                width == grid@.width,
                height == grid@.height,
                moves@ == proposals_upto(grid@, col) + column_proposals(grid@, col, row),
            decreases height - row,
        {
            if let Some(m) = propose(grid, col, row) {
                moves.push(m);
            }
            assert(moves@ =~= proposals_upto(grid@, col) + column_proposals(
                grid@,
                col,
                (row + 1) as usize,
            ));
            row += 1;
        }
        col += 1;
    }
    proof {
        assert forall|i: int| 0 <= i < moves.len() implies is_proposal(grid@, #[trigger] moves[i])
            && grid@.contains(moves[i].destination.0 as int, moves[i].destination.1 as int) by {
            lemma_proposals_are_candidates(grid@, moves[i]);
        }
    }
    moves
}

} // verus!
