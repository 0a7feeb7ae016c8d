//! When a search overruns its depth, and a depth that no search overruns.

use vstd::prelude::*;
use crate::coord::{Coord, Direction};
use crate::grid::{lemma_outside_is_blocked, Grid};
use crate::paths::{extended, overruns, overruns_via};
use crate::reach_laws::{lemma_reachable_cells_finite, lemma_route_length};
use crate::routes::{advances, explores, is_route, is_trail, legal_step, step_target};

verus! {

/// A search that overruns `max_len` comes to hold a path of more than
/// `max_len` cells: the result is such a path.
pub proof fn lemma_overrun_has_path(grid: Grid, path: Seq<Coord>, dest: Coord, max_len: nat) -> (long:
    Seq<Coord>)
    requires
        overruns(grid, path, dest, max_len),
        path.len() > 0,
    ensures
        explores(grid, path, dest, long),
        long.len() > max_len,
    decreases max_len + 1 - path.len(),
{
    if path.len() > max_len {
        assert(path.take(path.len() as int) =~= path);
        path
    } else {
        let d = if overruns_via(grid, path, dest, max_len, Direction::Up) {
            Direction::Up
        } else if overruns_via(grid, path, dest, max_len, Direction::Down) {
            Direction::Down
        } else if overruns_via(grid, path, dest, max_len, Direction::Right) {
            Direction::Right
        } else {
            Direction::Left
        };
        assert(overruns_via(grid, path, dest, max_len, d));
        let longer = extended(grid, path, d).unwrap();
        let to = step_target(grid, path.last(), d).unwrap();
        let long = lemma_overrun_has_path(grid, longer, dest, max_len);
        assert(long.take(longer.len() as int) == longer);
        assert(long.take(path.len() as int) =~= longer.take(path.len() as int));
        assert(longer.take(path.len() as int) =~= path);
        let i = path.len() - 1;
        assert(long[i] == longer[i]);
        assert(long[i + 1] == longer[i + 1]);
        assert(long.take(i + 1) =~= path);
        assert(legal_step(grid, long[i], long[i + 1]));
        assert forall|j: int| path.len() - 1 <= j < long.len() - 1 implies #[trigger] advances(
            grid,
            dest,
            long,
            j,
        ) by {
            if j > i {
                assert(longer.len() - 1 <= j);
            }
        }
        long
    }
}

/// A search overruns `max_len` if a runner can come to walk a path of more
/// than `max_len` cells.
pub proof fn lemma_long_path_overruns(
    grid: Grid,
    path: Seq<Coord>,
    dest: Coord,
    max_len: nat,
    long: Seq<Coord>,
)
    requires
        explores(grid, path, dest, long),
        long.len() > max_len,
    ensures
        overruns(grid, path, dest, max_len),
    decreases long.len() - path.len(),
{
    let n = path.len() as int;
    if n <= max_len {
        assert(long.take(n) == path);
        assert(long[n - 1] == path[n - 1]);
        assert(advances(grid, dest, long, n - 1));
        let to = long[n];
        let from = long[n - 1];
        let d = choose|d: Direction| step_target(grid, from, d) == Some(to);
        let longer = path.push(to);
        assert(long.take(n) =~= path);
        assert(extended(grid, path, d) == Some(longer));
        assert(long.take(n + 1) =~= longer);
        assert forall|j: int| longer.len() - 1 <= j < long.len() - 1 implies #[trigger] advances(
            grid,
            dest,
            long,
            j,
        ) by {
            assert(path.len() - 1 <= j);
        }
        lemma_long_path_overruns(grid, longer, dest, max_len, long);
        assert(overruns_via(grid, path, dest, max_len, d));
    }
}

/// A path that a runner can come to walk from `start` is a trail.
pub proof fn lemma_exploration_is_trail(grid: Grid, start: Coord, dest: Coord, path: Seq<Coord>)
    requires
        explores(grid, seq![start], dest, path),
    ensures
        is_trail(grid, path),
        path.first() == start,
{
    assert(path.take(1)[0] == path[0]);
    assert forall|i: int| 0 <= i < path.len() - 1 implies #[trigger] legal_step(
        grid,
        path[i],
        path[i + 1],
    ) by {
        assert(advances(grid, dest, path, i));
    }
    assert forall|i: int, j: int| 0 <= i < j < path.len() implies path[i] != path[j] by {
        assert(advances(grid, dest, path, j - 1));
        assert(path.take(j)[i] == path[i]);
    }
}

/// A search from `start` that may hold as many cells as the grid has, and at
/// least one, never overruns its depth.
pub proof fn lemma_grid_depth_suffices(grid: Grid, start: Coord, end: Coord, max_len: nat)
    requires
        max_len >= 1,
        max_len >= grid.spec_width() * grid.spec_height(),
    ensures
        !overruns(grid, seq![start], end, max_len),
{
    if overruns(grid, seq![start], end, max_len) {
        let long = lemma_overrun_has_path(grid, seq![start], end, max_len);
        lemma_exploration_is_trail(grid, start, end, long);
        assert(is_route(grid, start, long.last(), long));
        lemma_route_length(grid, start, long.last(), long);
        lemma_reachable_cells_finite(grid, start);
        if !grid.contains(start) {
            lemma_outside_is_blocked(grid, start);
            assert(legal_step(grid, long[0], long[1]));
        }
    }
}

} // verus!
