//! The two signals by which a driver steers the simulation, and the frame
//! that obeys them.
//!
//! Both signals fire on the edge: once when a key goes down, and not again
//! while it is held.

use vstd::prelude::*;
use rand::rngs::StdRng;
use crate::engine::{after_tick, picks_fit, TickEngine};
use crate::grid::{Grid, GridView};

verus! {

/// Which of the two control keys are held down at one moment.
#[derive(Clone, Copy, Debug, PartialEq, Eq, Structural)]
pub struct Controls {
    /// The key that ends the simulation.
    pub quit: bool,
    /// The key that empties the grid.
    pub reset: bool,
}

impl Controls {
    /// The signals that fire on the way from `previous` to `self`: those of
    /// the keys that are held now and were not held before.
    pub open spec fn edges(self, previous: Controls) -> Controls {
        Controls {
            quit: self.quit && !previous.quit,
            reset: self.reset && !previous.reset,
        }
    }

    /// No key held.
    pub fn idle() -> (controls: Controls)
        ensures
            controls == (Controls { quit: false, reset: false }),
    {
        Controls { quit: false, reset: false }
    }

    /// The signals that fire on the way from `previous` to `self`.
    pub fn pressed_since(&self, previous: &Controls) -> (fired: Controls)
        ensures
            fired == self.edges(*previous),
    {
        Controls {
            quit: self.quit && !previous.quit,
            reset: self.reset && !previous.reset,
        }
    }
}

/// The grid from which the tick of a frame starts: the blank grid where the
/// reset signal fires, and the grid as it stands otherwise.
pub open spec fn frame_start(g: GridView, previous: Controls, current: Controls) -> GridView {
    if current.edges(previous).reset {
        GridView::blank(g.width, g.height)
    } else {
        g
    }
}

/// Simulates one frame: empties the grid where the reset signal fires, then
/// advances it by one tick. The result says whether the quit signal fired;
/// the tick is made all the same.
pub fn run_frame(
    engine: &TickEngine,
    grid: &mut Grid,
    previous: Controls,
    current: Controls,
    rng: &mut StdRng,
) -> (quit: bool)
    ensures
        quit == current.edges(previous).quit,
        final(grid)@.width == old(grid)@.width,
        final(grid)@.height == old(grid)@.height,
        exists|picks: Seq<usize>, col: int|
            #![trigger after_tick(frame_start(old(grid)@, previous, current), picks, col, engine.spawns())]
            picks_fit(frame_start(old(grid)@, previous, current), picks)
                && 0 <= col < old(grid)@.width && final(grid)@ == after_tick(
                frame_start(old(grid)@, previous, current),
                picks,
                col,
                engine.spawns(),
            ),
{
    let ghost before = grid@;
    let fired = current.pressed_since(&previous);
    if fired.reset {
        grid.clear();
    }
    let ghost start = grid@;
    engine.step(grid, rng);
    proof {
        let (picks, col) = choose|picks: Seq<usize>, col: int|
            #![trigger after_tick(start, picks, col, engine.spawns())]
            picks_fit(start, picks) && 0 <= col < start.width && grid@ == after_tick(
                start,
                picks,
                col,
                engine.spawns(),
            );
        assert(grid@ == after_tick(
            frame_start(before, previous, current),
            picks,
            col,
            engine.spawns(),
        ));
    }
    fired.quit
}

} // verus!
