//! How long a route can be: no longer than the number of cells that can be
//! reached at all.

use vstd::prelude::*;
use vstd::arithmetic::div_mod::lemma_fundamental_div_mod_converse;
use vstd::seq_lib::seq_to_set_is_finite;
use vstd::set_lib::lemma_len_subset;
use crate::coord::Coord;
use crate::grid::Grid;
use crate::routes::{is_route, is_trail, legal_step, reachable};

verus! {

/// The cells of `grid`.
pub open spec fn cells(grid: Grid) -> Set<Coord> {
    Set::new(|c: Coord| grid.contains(c))
}

/// The cells on which a runner who starts on `start` can come to stand.
pub open spec fn reachable_cells(grid: Grid, start: Coord) -> Set<Coord> {
    Set::new(|c: Coord| reachable(grid, start, c))
}

/// The cell that stands at place `i` when the cells of a grid of the given
/// height are listed column by column.
pub open spec fn listed_cell(height: int, i: int) -> Coord {
    Coord { x: (i / height) as usize, y: (i % height) as usize }
}

/// A grid has at most `width * height` cells.
pub proof fn lemma_cells_counted(grid: Grid)
    ensures
        cells(grid).finite(),
        cells(grid).len() <= grid.spec_width() * grid.spec_height(),
{
    let w = grid.spec_width() as int;
    let h = grid.spec_height() as int;
    assert(0 <= w * h) by (nonlinear_arith)
        requires
            0 <= w,
            0 <= h,
    ;
    let all = Seq::new((w * h) as nat, |i: int| listed_cell(h, i));
    assert forall|c: Coord| cells(grid).contains(c) implies all.to_set().contains(c) by {
        let x = c.x as int;
        let y = c.y as int;
        let i = x * h + y;
        assert(0 <= i < w * h) by (nonlinear_arith)
            requires
                0 <= x < w,
                0 <= y < h,
                i == x * h + y,
        ;
        lemma_fundamental_div_mod_converse(i, h, x, y);
        assert(all[i] == c);
    }
    seq_to_set_is_finite(all);
    lemma_len_subset(cells(grid), all.to_set());
    all.lemma_cardinality_of_set();
}

/// The beginning of a trail is a trail.
pub proof fn lemma_trail_prefix(grid: Grid, path: Seq<Coord>, n: int)
    requires
        is_trail(grid, path),
        0 < n <= path.len(),
    ensures
        is_trail(grid, path.take(n)),
{
    let head = path.take(n);
    assert forall|i: int| 0 <= i < head.len() - 1 implies #[trigger] legal_step(
        grid,
        head[i],
        head[i + 1],
    ) by {
        assert(legal_step(grid, path[i], path[i + 1]));
    }
}

/// Every cell of a route from `start` can be reached from `start`.
pub proof fn lemma_route_cells_reachable(
    grid: Grid,
    start: Coord,
    end: Coord,
    route: Seq<Coord>,
    i: int,
)
    requires
        is_route(grid, start, end, route),
        0 <= i < route.len(),
    ensures
        reachable(grid, start, route[i]),
{
    lemma_trail_prefix(grid, route, i + 1);
    assert(is_route(grid, start, route[i], route.take(i + 1)));
}

/// Whatever can be reached from `start` is a cell of the grid or `start`.
pub proof fn lemma_reachable_cells_finite(grid: Grid, start: Coord)
    ensures
        reachable_cells(grid, start).finite(),
        reachable_cells(grid, start).subset_of(cells(grid).insert(start)),
        reachable_cells(grid, start).len() <= grid.spec_width() * grid.spec_height() + 1,
        grid.contains(start) ==> reachable_cells(grid, start).len() <= grid.spec_width()
            * grid.spec_height(),
{
    lemma_cells_counted(grid);
    let all = cells(grid).insert(start);
    assert forall|c: Coord| reachable_cells(grid, start).contains(c) implies all.contains(c) by {
        let path = choose|path: Seq<Coord>| #[trigger] is_route(grid, start, c, path);
        if path.len() > 1 {
            let i = path.len() - 2;
            assert(legal_step(grid, path[i], path[i + 1]));
        }
    }
    lemma_len_subset(reachable_cells(grid, start), all);
    if grid.contains(start) {
        assert(all =~= cells(grid));
    }
}

/// A route holds no more cells than can be reached from its start.
pub proof fn lemma_route_length(grid: Grid, start: Coord, end: Coord, route: Seq<Coord>)
    requires
        is_route(grid, start, end, route),
    ensures
        reachable_cells(grid, start).finite(),
        route.len() <= reachable_cells(grid, start).len(),
{
    lemma_reachable_cells_finite(grid, start);
    assert forall|c: Coord| route.to_set().contains(c) implies reachable_cells(
        grid,
        start,
    ).contains(c) by {
        let i = choose|i: int| 0 <= i < route.len() && route[i] == c;
        lemma_route_cells_reachable(grid, start, end, route, i);
    }
    route.unique_seq_to_set();
    lemma_len_subset(route.to_set(), reachable_cells(grid, start));
}

} // verus!
