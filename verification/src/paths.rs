//! Exhaustive enumeration of the routes through a grid.
//!
//! A runner standing on a cell may leave it in a direction that the cell's
//! mask allows, provided that the step stays inside the grid. A route never
//! visits a cell twice. The search looks at the directions in the order up,
//! down, right, left, and reports the routes in the order in which it finds
//! them.

use vstd::prelude::*;
use crate::coord::{Coord, Direction};
use crate::depth_laws::lemma_grid_depth_suffices;
use crate::error::PathExplosionError;
use crate::grid::Grid;
use crate::route_laws::{lemma_search_finds_continuations, lemma_search_finds_routes};
use crate::routes::{continues, is_route, step_target};

verus! {

/// The limits that keep a search from running away.
#[derive(Clone, Copy, Debug, PartialEq, Eq, Structural)]
pub struct SearchLimits {
    /// The largest number of cells that a path under exploration may hold.
    pub max_depth: usize,
    /// The largest number of routes that a search may report.
    pub max_paths: usize,
}

impl SearchLimits {
    /// Limits of `max_depth` cells to a path and `max_paths` routes to a
    /// search.
    pub fn new(max_depth: usize, max_paths: usize) -> (limits: SearchLimits)
        ensures
            limits == (SearchLimits { max_depth, max_paths }),
    {
        SearchLimits { max_depth, max_paths }
    }

    /// Limits under which a search through a grid of the given size fails
    /// only for the number of its routes: a path may hold as many cells as
    /// the grid has.
    pub fn for_size(width: usize, height: usize, max_paths: usize) -> (limits: SearchLimits)
        ensures
            limits.max_paths == max_paths,
            limits.max_depth == covering_depth(width, height),
            width * height <= usize::MAX ==> forall|grid: Grid, start: Coord, end: Coord|
                grid.spec_width() == width && grid.spec_height() == height ==> !#[trigger] overruns(
                    grid,
                    seq![start],
                    end,
                    limits.max_depth as nat,
                ),
    {
        let max_depth: usize = match width.checked_mul(height) {
            Some(cells) => if cells == 0 {
                1
            } else {
                cells
            },
            None => usize::MAX,
        };
        proof {
            if width * height <= usize::MAX {
                assert forall|grid: Grid, start: Coord, end: Coord|
                    grid.spec_width() == width && grid.spec_height()
                        == height implies !#[trigger] overruns(
                    grid,
                    seq![start],
                    end,
                    max_depth as nat,
                ) by {
                    lemma_grid_depth_suffices(grid, start, end, max_depth as nat);
                }
            }
        }
        SearchLimits { max_depth, max_paths }
    }

    /// Limits under which a search through `grid` fails only for the number
    /// of its routes: see `for_size`.
    pub fn for_grid(grid: &Grid, max_paths: usize) -> (limits: SearchLimits)
        ensures
            limits.max_paths == max_paths,
            limits.max_depth == covering_depth(grid.spec_width(), grid.spec_height()),
            grid.spec_width() * grid.spec_height() <= usize::MAX ==> forall|
                start: Coord,
                end: Coord,
            | !#[trigger] overruns(*grid, seq![start], end, limits.max_depth as nat),
    {
        SearchLimits::for_size(grid.width(), grid.height(), max_paths)
    }
}

/// The depth at which no search through a grid of the given size overruns:
/// the number of its cells, but at least one and at most `usize::MAX`.
pub open spec fn covering_depth(width: usize, height: usize) -> usize {
    if width * height == 0 {
        1
    } else if width * height <= usize::MAX {
        (width * height) as usize
    } else {
        usize::MAX
    }
}

/// `path` with one more cell, reached by a legal step in direction `d` from
/// its last cell and not yet on the path.
pub open spec fn extended(grid: Grid, path: Seq<Coord>, d: Direction) -> Option<Seq<Coord>> {
    if path.len() == 0 {
        None
    } else {
        match step_target(grid, path.last(), d) {
            Some(to) => if path.contains(to) {
                None
            } else {
                Some(path.push(to))
            },
            None => None,
        }
    }
}

/// The routes that continue `path` to `dest` and hold at most `max_len`
/// cells, in the order in which the search finds them.
pub open spec fn routes_within(grid: Grid, path: Seq<Coord>, dest: Coord, max_len: nat) -> Seq<
    Seq<Coord>,
>
    decreases max_len + 1 - path.len(), 1nat,
{
    if path.len() == 0 || path.len() > max_len {
        Seq::empty()
    } else if path.last() == dest {
        seq![path]
    } else {
        routes_via(grid, path, dest, max_len, Direction::Up) + routes_via(
            grid,
            path,
            dest,
            max_len,
            Direction::Down,
        ) + routes_via(grid, path, dest, max_len, Direction::Right) + routes_via(
            grid,
            path,
            dest,
            max_len,
            Direction::Left,
        )
    }
}

/// The routes of `routes_within` whose next step after `path` goes in
/// direction `d`.
pub open spec fn routes_via(
    grid: Grid,
    path: Seq<Coord>,
    dest: Coord,
    max_len: nat,
    d: Direction,
) -> Seq<Seq<Coord>>
    decreases max_len + 1 - path.len(), 0nat,
{
    if path.len() > max_len {
        Seq::empty()
    } else {
        match extended(grid, path, d) {
            Some(longer) => routes_within(grid, longer, dest, max_len),
            None => Seq::empty(),
        }
    }
}

/// Whether the search that continues `path` towards `dest` comes to hold a
/// path of more than `max_len` cells.
pub open spec fn overruns(grid: Grid, path: Seq<Coord>, dest: Coord, max_len: nat) -> bool
    decreases max_len + 1 - path.len(), 1nat,
{
    if path.len() > max_len {
        true
    } else if path.len() == 0 || path.last() == dest {
        false
    } else {
        overruns_via(grid, path, dest, max_len, Direction::Up) || overruns_via(
            grid,
            path,
            dest,
            max_len,
            Direction::Down,
        ) || overruns_via(grid, path, dest, max_len, Direction::Right) || overruns_via(
            grid,
            path,
            dest,
            max_len,
            Direction::Left,
        )
    }
}

/// Whether the search overruns `max_len` after a step in direction `d`.
pub open spec fn overruns_via(
    grid: Grid,
    path: Seq<Coord>,
    dest: Coord,
    max_len: nat,
    d: Direction,
) -> bool
    decreases max_len + 1 - path.len(), 0nat,
{
    if path.len() > max_len {
        false
    } else {
        match extended(grid, path, d) {
            Some(longer) => overruns(grid, longer, dest, max_len),
            None => false,
        }
    }
}

/// Whether the search that continues `path` towards `dest` goes beyond
/// `limits`: it comes to hold a path that is too long, or there are more
/// routes than it may report.
pub open spec fn explodes(grid: Grid, path: Seq<Coord>, dest: Coord, limits: SearchLimits) -> bool {
    overruns(grid, path, dest, limits.max_depth as nat) || routes_within(
        grid,
        path,
        dest,
        limits.max_depth as nat,
    ).len() > limits.max_paths
}

/// The paths of `found` as sequences.
pub open spec fn paths_view(found: Seq<Vec<Coord>>) -> Seq<Seq<Coord>> {
    Seq::new(found.len(), |i: int| found[i]@)
}

/// The cell reached from `from` by one step in direction `d`, if that step
/// is legal.
pub fn next_cell(grid: &Grid, from: Coord, d: Direction) -> (to: Option<Coord>)
    requires
        grid.wf(),
    ensures
        to == step_target(*grid, from, d),
{
    if !grid.mask(from).permits(d) {
        return None;
    }
    let width: usize = grid.width();
    let height: usize = grid.height();
    match d {
        Direction::Up => if from.x < width && from.y < height && from.y + 1 < height {
            Some(Coord::new(from.x, from.y + 1))
        } else {
            None
        },
        Direction::Down => if from.x < width && from.y >= 1 && from.y - 1 < height {
            Some(Coord::new(from.x, from.y - 1))
        } else {
            None
        },
        Direction::Right => if from.y < height && from.x < width && from.x + 1 < width {
            Some(Coord::new(from.x + 1, from.y))
        } else {
            None
        },
        Direction::Left => if from.y < height && from.x >= 1 && from.x - 1 < width {
            Some(Coord::new(from.x - 1, from.y))
        } else {
            None
        },
    }
}

/// Whether `c` is one of the cells of `path`.
pub fn visited(path: &Vec<Coord>, c: Coord) -> (b: bool)
    ensures
        b == path@.contains(c),
{
    let mut i: usize = 0;
    while i < path.len()
        invariant
            i <= path@.len(),
            forall|j: int| 0 <= j < i ==> path@[j] != c,
        decreases path@.len() - i,
    {
        if path[i] == c {
            return true;
        }
        i = i + 1;
    }
    false
}

/// Continues `path` by one step in direction `d`, where that step is legal
/// and leads to a cell that is not on the path, and adds the routes found
/// from there to `found`.
fn explore_direction(
    path: &Vec<Coord>,
    d: Direction,
    dest: Coord,
    grid: &Grid,
    limits: &SearchLimits,
    found: &mut Vec<Vec<Coord>>,
) -> (res: Result<(), PathExplosionError>)
    requires
        grid.wf(),
        0 < path@.len() <= limits.max_depth,
        old(found)@.len() <= limits.max_paths,
    ensures
        res is Err <==> overruns_via(*grid, path@, dest, limits.max_depth as nat, d) || old(
            found,
        )@.len() + routes_via(*grid, path@, dest, limits.max_depth as nat, d).len()
            > limits.max_paths,
        res is Ok ==> paths_view(final(found)@) == paths_view(old(found)@) + routes_via(
            *grid,
            path@,
            dest,
            limits.max_depth as nat,
            d,
        ),
    decreases limits.max_depth + 1 - path@.len(), 0nat,
{
    let origin = path[path.len() - 1];
    match next_cell(grid, origin, d) {
        Some(to) => {
            if visited(path, to) {
                assert(paths_view(found@) + Seq::<Seq<Coord>>::empty() =~= paths_view(found@));
                return Ok(());
            }
            let mut longer = path.clone();
            longer.push(to);
            assert(longer@ == path@.push(to));
            match gather_paths(longer, dest, grid, limits) {
                Ok(mut more) => {
                    let ghost before = found@;
                    let ghost added = more@;
                    found.append(&mut more);
                    assert(paths_view(found@) =~= paths_view(before) + paths_view(added));
                    if found.len() > limits.max_paths {
                        Err(PathExplosionError {  })
                    } else {
                        Ok(())
                    }
                },
                Err(e) => Err(e),
            }
        },
        None => {
            assert(paths_view(found@) + Seq::<Seq<Coord>>::empty() =~= paths_view(found@));
            Ok(())
        },
    }
}

/// Finds every route that continues `path` to `dest`: each goes on from the
/// last cell of `path` by legal steps, never enters a cell that it already
/// holds, and stops when it first reaches `dest`.
///
/// Fails when the search comes to hold a path of more than
/// `limits.max_depth` cells, or when there are more than `limits.max_paths`
/// routes.
pub fn gather_paths(path: Vec<Coord>, dest: Coord, grid: &Grid, limits: &SearchLimits) -> (res:
    Result<Vec<Vec<Coord>>, PathExplosionError>)
    requires
        grid.wf(),
        path@.len() > 0,
    ensures
        res is Err <==> explodes(*grid, path@, dest, *limits),
        res matches Ok(found) ==> {
            &&& paths_view(found@) == routes_within(*grid, path@, dest, limits.max_depth as nat)
            &&& found@.len() <= limits.max_paths
            &&& paths_view(found@).no_duplicates()
            &&& forall|route: Seq<Coord>|
                #![trigger paths_view(found@).contains(route)]
                #![trigger continues(*grid, path@, dest, route)]
                paths_view(found@).contains(route) <==> continues(*grid, path@, dest, route)
        },
    decreases limits.max_depth + 1 - path@.len(), 1nat,
{
    proof {
        lemma_search_finds_continuations(*grid, path@, dest, limits.max_depth as nat);
    }
    if path.len() > limits.max_depth {
        return Err(PathExplosionError {  });
    }
    let origin = path[path.len() - 1];
    let mut found: Vec<Vec<Coord>> = Vec::new();
    if origin == dest {
        if limits.max_paths == 0 {
            return Err(PathExplosionError {  });
        }
        let ghost whole = path@;
        found.push(path);
        assert(paths_view(found@) =~= seq![whole]);
        return Ok(found);
    }
    assert(paths_view(found@) =~= Seq::<Seq<Coord>>::empty());
    let ghost max_len = limits.max_depth as nat;
    let ghost up = routes_via(*grid, path@, dest, max_len, Direction::Up);
    let ghost down = routes_via(*grid, path@, dest, max_len, Direction::Down);
    let ghost right = routes_via(*grid, path@, dest, max_len, Direction::Right);
    let ghost left = routes_via(*grid, path@, dest, max_len, Direction::Left);
    assert(routes_within(*grid, path@, dest, max_len) == up + down + right + left);
    match explore_direction(&path, Direction::Up, dest, grid, limits, &mut found) {
        Err(e) => {
            return Err(e);
        },
        Ok(_) => {},
    }
    assert(paths_view(found@) =~= up);
    match explore_direction(&path, Direction::Down, dest, grid, limits, &mut found) {
        Err(e) => {
            return Err(e);
        },
        Ok(_) => {},
    }
    match explore_direction(&path, Direction::Right, dest, grid, limits, &mut found) {
        Err(e) => {
            return Err(e);
        },
        Ok(_) => {},
    }
    match explore_direction(&path, Direction::Left, dest, grid, limits, &mut found) {
        Err(e) => {
            return Err(e);
        },
        Ok(_) => {},
    }
    Ok(found)
}

/// Finds every route from `start` to `end`: see `gather_paths`.
pub fn enumerate_paths(grid: &Grid, start: Coord, end: Coord, limits: &SearchLimits) -> (res:
    Result<Vec<Vec<Coord>>, PathExplosionError>)
    requires
        grid.wf(),
    ensures
        res is Err <==> explodes(*grid, seq![start], end, *limits),
        res matches Ok(found) ==> {
            &&& paths_view(found@) == routes_within(
                *grid,
                seq![start],
                end,
                limits.max_depth as nat,
            )
            &&& found@.len() <= limits.max_paths
            &&& paths_view(found@).no_duplicates()
            &&& forall|route: Seq<Coord>|
                #![trigger paths_view(found@).contains(route)]
                #![trigger is_route(*grid, start, end, route)]
                paths_view(found@).contains(route) <==> is_route(*grid, start, end, route)
        },
{
    let mut path: Vec<Coord> = Vec::new();
    path.push(start);
    assert(path@ =~= seq![start]);
    proof {
        if !overruns(*grid, seq![start], end, limits.max_depth as nat) {
            lemma_search_finds_routes(*grid, start, end, limits.max_depth as nat);
        }
    }
    gather_paths(path, end, grid, limits)
}

} // verus!
