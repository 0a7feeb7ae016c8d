//! What a route is: the steps that a grid allows and the paths made of them.

use vstd::prelude::*;
use crate::coord::{Coord, Direction};
use crate::grid::Grid;

verus! {

/// The cell reached from `from` by one step in direction `d`, if the mask of
/// `from` allows that direction and the step stays inside the grid.
pub open spec fn step_target(grid: Grid, from: Coord, d: Direction) -> Option<Coord> {
    let p = from.shifted(d);
    if grid.mask_at(from).allows(d) && 0 <= p.0 < grid.spec_width() && 0 <= p.1
        < grid.spec_height() {
        Some(Coord { x: p.0 as usize, y: p.1 as usize })
    } else {
        None
    }
}

/// Whether a runner on `from` may move to `to` in one step.
pub open spec fn legal_step(grid: Grid, from: Coord, to: Coord) -> bool {
    exists|d: Direction| step_target(grid, from, d) == Some(to)
}

/// Whether `path` is a walk that a runner can make without entering a cell
/// twice: it holds a cell, no cell occurs in it twice, and each cell but the
/// first is reached from the one before it by a legal step.
pub open spec fn is_trail(grid: Grid, path: Seq<Coord>) -> bool {
    &&& path.len() > 0
    &&& path.no_duplicates()
    &&& forall|i: int| 0 <= i < path.len() - 1 ==> #[trigger] legal_step(grid, path[i], path[i + 1])
}

/// Whether `path` is a route from `start` to `end`.
pub open spec fn is_route(grid: Grid, start: Coord, end: Coord, path: Seq<Coord>) -> bool {
    &&& is_trail(grid, path)
    &&& path.first() == start
    &&& path.last() == end
}

/// Whether the step from cell `i` of `path` to the next cell is one that a
/// runner bound for `dest` makes: the runner has not arrived yet, the step is
/// legal, and it leads to a cell that the runner has not stood on before.
pub open spec fn advances(grid: Grid, dest: Coord, path: Seq<Coord>, i: int) -> bool {
    &&& path[i] != dest
    &&& legal_step(grid, path[i], path[i + 1])
    &&& !path.take(i + 1).contains(path[i + 1])
}

/// Whether `path` is one that a runner bound for `dest` can come to walk
/// after `prefix`: it begins with `prefix`, and each cell after `prefix` is
/// reached by a legal step from a cell other than `dest` and does not occur
/// earlier in `path`.
pub open spec fn explores(grid: Grid, prefix: Seq<Coord>, dest: Coord, path: Seq<Coord>) -> bool {
    &&& 0 < prefix.len() <= path.len()
    &&& path.take(prefix.len() as int) == prefix
    &&& forall|i: int|
        prefix.len() - 1 <= i < path.len() - 1 ==> #[trigger] advances(grid, dest, path, i)
}

/// Whether `path` continues `prefix` to `dest`: a runner bound for `dest` can
/// walk it after `prefix`, and it ends on `dest`.
pub open spec fn continues(grid: Grid, prefix: Seq<Coord>, dest: Coord, path: Seq<Coord>) -> bool {
    explores(grid, prefix, dest, path) && path.last() == dest
}

/// Whether a runner who starts on `start` can come to stand on `c`.
pub open spec fn reachable(grid: Grid, start: Coord, c: Coord) -> bool {
    exists|path: Seq<Coord>| #[trigger] is_route(grid, start, c, path)
}

} // verus!
