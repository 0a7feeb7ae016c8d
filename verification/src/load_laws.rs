//! A map has one ground, and the search for its routes one outcome.

use vstd::prelude::*;
use crate::asset::search_explodes;
use crate::classify::Roles;
use crate::coord::{Coord, Direction};
use crate::grid::{lemma_outside_is_blocked, Grid};
use crate::layers::Layer;
use crate::paths::{explodes, extended, overruns, overruns_via, routes_via, routes_within, SearchLimits};
use crate::routes::step_target;
use crate::terrain::{comes_after, portrays, shows, Terrain};

verus! {

/// Whether two grids are the same ground: they have the same size and the
/// same mask at every cell.
pub open spec fn same_ground(a: Grid, b: Grid) -> bool {
    &&& a.spec_width() == b.spec_width()
    &&& a.spec_height() == b.spec_height()
    &&& forall|c: Coord| #[trigger] a.mask_at(c) == b.mask_at(c)
}

/// On the same ground a search finds the same routes and overruns its depth
/// in the same cases.
pub proof fn lemma_same_ground_same_search(
    a: Grid,
    b: Grid,
    path: Seq<Coord>,
    dest: Coord,
    max_len: nat,
)
    requires
        same_ground(a, b),
    ensures
        routes_within(a, path, dest, max_len) == routes_within(b, path, dest, max_len),
        overruns(a, path, dest, max_len) == overruns(b, path, dest, max_len),
    decreases max_len + 1 - path.len(),
{
    if 0 < path.len() <= max_len && path.last() != dest {
        assert forall|d: Direction|
            #![trigger routes_via(a, path, dest, max_len, d)]
            #![trigger overruns_via(a, path, dest, max_len, d)]
            routes_via(a, path, dest, max_len, d) == routes_via(b, path, dest, max_len, d)
                && overruns_via(a, path, dest, max_len, d) == overruns_via(
                b,
                path,
                dest,
                max_len,
                d,
            ) by {
            assert(a.mask_at(path.last()) == b.mask_at(path.last()));
            assert(step_target(a, path.last(), d) == step_target(b, path.last(), d));
            assert(extended(a, path, d) == extended(b, path, d));
            match extended(a, path, d) {
                Some(longer) => {
                    lemma_same_ground_same_search(a, b, longer, dest, max_len);
                },
                None => {},
            }
        }
        assert(routes_via(a, path, dest, max_len, Direction::Up) == routes_via(
            b,
            path,
            dest,
            max_len,
            Direction::Up,
        ));
        assert(routes_via(a, path, dest, max_len, Direction::Down) == routes_via(
            b,
            path,
            dest,
            max_len,
            Direction::Down,
        ));
        assert(routes_via(a, path, dest, max_len, Direction::Right) == routes_via(
            b,
            path,
            dest,
            max_len,
            Direction::Right,
        ));
        assert(routes_via(a, path, dest, max_len, Direction::Left) == routes_via(
            b,
            path,
            dest,
            max_len,
            Direction::Left,
        ));
        assert(overruns_via(a, path, dest, max_len, Direction::Up) == overruns_via(
            b,
            path,
            dest,
            max_len,
            Direction::Up,
        ));
        assert(overruns_via(a, path, dest, max_len, Direction::Down) == overruns_via(
            b,
            path,
            dest,
            max_len,
            Direction::Down,
        ));
        assert(overruns_via(a, path, dest, max_len, Direction::Right) == overruns_via(
            b,
            path,
            dest,
            max_len,
            Direction::Right,
        ));
        assert(overruns_via(a, path, dest, max_len, Direction::Left) == overruns_via(
            b,
            path,
            dest,
            max_len,
            Direction::Left,
        ));
    }
}

/// The layers of a map say one thing of the ground: two terrains that
/// portray them are the same ground and agree on the starting point and on
/// the end point.
pub proof fn lemma_portrayals_agree(
    first: Terrain,
    second: Terrain,
    layers: Seq<Layer>,
    roles: Roles,
    width: usize,
    height: usize,
)
    requires
        portrays(first, layers, roles, width, height),
        portrays(second, layers, roles, width, height),
    ensures
        same_ground(first.grid, second.grid),
        first.start == second.start,
        first.end == second.end,
{
    assert forall|c: Coord| #[trigger] first.grid.mask_at(c) == second.grid.mask_at(c) by {
        if !first.grid.contains(c) {
            lemma_outside_is_blocked(first.grid, c);
            lemma_outside_is_blocked(second.grid, c);
        }
    }
    assert(shows(layers, roles, height, first.start, roles.start_tile));
    assert(shows(layers, roles, height, second.start, roles.start_tile));
    assert(!comes_after(first.start, second.start));
    assert(!comes_after(second.start, first.start));
    assert(shows(layers, roles, height, first.end, roles.end_tile));
    assert(shows(layers, roles, height, second.end, roles.end_tile));
    assert(!comes_after(first.end, second.end));
    assert(!comes_after(second.end, first.end));
}

/// Whether the search for the routes of a map goes beyond its limits can be
/// read from any terrain that portrays the map's layers.
pub proof fn lemma_search_outcome_is_one(
    terrain: Terrain,
    layers: Seq<Layer>,
    roles: Roles,
    width: usize,
    height: usize,
    limits: SearchLimits,
)
    requires
        portrays(terrain, layers, roles, width, height),
    ensures
        search_explodes(layers, roles, width, height, limits) <==> explodes(
            terrain.grid,
            seq![terrain.start],
            terrain.end,
            limits,
        ),
{
    if search_explodes(layers, roles, width, height, limits) {
        let other = choose|other: Terrain| #[trigger]
            portrays(other, layers, roles, width, height) && explodes(
                other.grid,
                seq![other.start],
                other.end,
                limits,
            );
        lemma_portrayals_agree(terrain, other, layers, roles, width, height);
        lemma_same_ground_same_search(
            terrain.grid,
            other.grid,
            seq![terrain.start],
            terrain.end,
            limits.max_depth as nat,
        );
    }
}

} // verus!
