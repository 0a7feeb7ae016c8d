//! What the search finds, stated without reference to how it searches.

use vstd::prelude::*;
use vstd::seq_lib::{
    lemma_no_dup_in_concat,
    lemma_seq_concat_contains_all_elements,
    seq_to_set_is_finite,
};
use crate::coord::{Coord, Direction};
use crate::grid::Grid;
use crate::paths::{extended, overruns, overruns_via, routes_via, routes_within};
use crate::routes::{advances, continues, is_route, legal_step, step_target};

verus! {

/// The four directions lead to four different positions.
pub proof fn lemma_directions_part(grid: Grid, from: Coord, d1: Direction, d2: Direction)
    requires
        step_target(grid, from, d1) is Some,
        step_target(grid, from, d1) == step_target(grid, from, d2),
    ensures
        d1 == d2,
{
}

/// A route found after a step in direction `d` continues the path, holds at
/// most `max_len` cells, and begins with the path as that step extends it.
pub proof fn lemma_found_via_continues(
    grid: Grid,
    path: Seq<Coord>,
    dest: Coord,
    max_len: nat,
    d: Direction,
    route: Seq<Coord>,
)
    requires
        routes_via(grid, path, dest, max_len, d).contains(route),
        path.len() > 0 ==> path.last() != dest,
    ensures
        continues(grid, path, dest, route),
        route.len() <= max_len,
        path.len() < route.len(),
        extended(grid, path, d) == Some(route.take(path.len() as int + 1)),
    decreases max_len + 1 - path.len(), 0nat,
{
    let longer = extended(grid, path, d).unwrap();
    let to = step_target(grid, path.last(), d).unwrap();
    lemma_found_continues(grid, longer, dest, max_len, route);
    assert(route.take(longer.len() as int) == longer);
    assert(route.take(path.len() as int) =~= longer.take(path.len() as int));
    assert(longer.take(path.len() as int) =~= path);
    assert(0 < path.len() <= route.len());
    assert(route.take(path.len() as int) == path);
    assert(route.last() == dest);
    let i = path.len() - 1;
    assert(route[i] == longer[i]);
    assert(route[i + 1] == longer[i + 1]);
    assert(route.take(i + 1) =~= path);
    assert(legal_step(grid, route[i], route[i + 1]));
    assert forall|j: int| path.len() - 1 <= j < route.len() - 1 implies #[trigger] advances(
        grid,
        dest,
        route,
        j,
    ) by {
        if j > i {
            assert(longer.len() - 1 <= j);
        }
    }
}

/// Soundness of the search: a route that it finds continues the path to the
/// destination and holds at most `max_len` cells.
pub proof fn lemma_found_continues(
    grid: Grid,
    path: Seq<Coord>,
    dest: Coord,
    max_len: nat,
    route: Seq<Coord>,
)
    requires
        routes_within(grid, path, dest, max_len).contains(route),
    ensures
        continues(grid, path, dest, route),
        route.len() <= max_len,
    decreases max_len + 1 - path.len(), 1nat,
{
    if path.len() == 0 || path.len() > max_len {
    } else if path.last() == dest {
        assert(route == path);
        assert(path.take(path.len() as int) =~= path);
    } else {
        let up = routes_via(grid, path, dest, max_len, Direction::Up);
        let down = routes_via(grid, path, dest, max_len, Direction::Down);
        let right = routes_via(grid, path, dest, max_len, Direction::Right);
        let left = routes_via(grid, path, dest, max_len, Direction::Left);
        lemma_seq_concat_contains_all_elements(up + down + right, left, route);
        lemma_seq_concat_contains_all_elements(up + down, right, route);
        lemma_seq_concat_contains_all_elements(up, down, route);
        if up.contains(route) {
            lemma_found_via_continues(grid, path, dest, max_len, Direction::Up, route);
        } else if down.contains(route) {
            lemma_found_via_continues(grid, path, dest, max_len, Direction::Down, route);
        } else if right.contains(route) {
            lemma_found_via_continues(grid, path, dest, max_len, Direction::Right, route);
        } else {
            lemma_found_via_continues(grid, path, dest, max_len, Direction::Left, route);
        }
    }
}

/// Completeness of the search: it finds every path of at most `max_len`
/// cells that continues the path to the destination.
pub proof fn lemma_continuation_is_found(
    grid: Grid,
    path: Seq<Coord>,
    dest: Coord,
    max_len: nat,
    route: Seq<Coord>,
)
    requires
        continues(grid, path, dest, route),
        route.len() <= max_len,
    ensures
        routes_within(grid, path, dest, max_len).contains(route),
    decreases route.len() - path.len(),
{
    let n = path.len() as int;
    assert(route.take(n) == path);
    assert(route[n - 1] == path[n - 1]);
    if path.last() == dest {
        if route.len() > n {
            assert(advances(grid, dest, route, n - 1));
        }
        assert(route.take(n) =~= route);
        assert(seq![path][0] == route);
    } else {
        assert(route.len() > n);
        assert(advances(grid, dest, route, n - 1));
        let to = route[n];
        let from = route[n - 1];
        let d = choose|d: Direction| step_target(grid, from, d) == Some(to);
        let longer = path.push(to);
        assert(route.take(n) =~= path);
        assert(extended(grid, path, d) == Some(longer));
        assert(route.take(n + 1) =~= longer);
        assert forall|j: int| longer.len() - 1 <= j < route.len() - 1 implies #[trigger] advances(
            grid,
            dest,
            route,
            j,
        ) by {
            assert(path.len() - 1 <= j);
        }
        lemma_continuation_is_found(grid, longer, dest, max_len, route);
        assert(routes_via(grid, path, dest, max_len, d).contains(route));
        let up = routes_via(grid, path, dest, max_len, Direction::Up);
        let down = routes_via(grid, path, dest, max_len, Direction::Down);
        let right = routes_via(grid, path, dest, max_len, Direction::Right);
        let left = routes_via(grid, path, dest, max_len, Direction::Left);
        lemma_seq_concat_contains_all_elements(up + down + right, left, route);
        lemma_seq_concat_contains_all_elements(up + down, right, route);
        lemma_seq_concat_contains_all_elements(up, down, route);
    }
}

/// Routes found after steps in different directions differ.
proof fn lemma_branches_apart(
    grid: Grid,
    path: Seq<Coord>,
    dest: Coord,
    max_len: nat,
    d1: Direction,
    d2: Direction,
)
    requires
        d1 != d2,
        path.len() > 0 ==> path.last() != dest,
    ensures
        forall|i: int, j: int|
            0 <= i < routes_via(grid, path, dest, max_len, d1).len() && 0 <= j < routes_via(
                grid,
                path,
                dest,
                max_len,
                d2,
            ).len() ==> routes_via(grid, path, dest, max_len, d1)[i] != routes_via(
                grid,
                path,
                dest,
                max_len,
                d2,
            )[j],
{
    let a = routes_via(grid, path, dest, max_len, d1);
    let b = routes_via(grid, path, dest, max_len, d2);
    assert forall|i: int, j: int| 0 <= i < a.len() && 0 <= j < b.len() implies a[i] != b[j] by {
        assert(a.contains(a[i]));
        assert(b.contains(b[j]));
        lemma_found_via_continues(grid, path, dest, max_len, d1, a[i]);
        lemma_found_via_continues(grid, path, dest, max_len, d2, b[j]);
        if a[i] == b[j] {
            assert(extended(grid, path, d1) == extended(grid, path, d2));
            let t1 = step_target(grid, path.last(), d1).unwrap();
            let t2 = step_target(grid, path.last(), d2).unwrap();
            assert(path.push(t1) == path.push(t2));
            assert(path.push(t1).last() == t1);
            assert(path.push(t2).last() == t2);
            lemma_directions_part(grid, path.last(), d1, d2);
        }
    }
}

/// The search finds no route twice.
pub proof fn lemma_found_once(grid: Grid, path: Seq<Coord>, dest: Coord, max_len: nat)
    ensures
        routes_within(grid, path, dest, max_len).no_duplicates(),
    decreases max_len + 1 - path.len(), 1nat,
{
    if path.len() == 0 || path.len() > max_len {
    } else if path.last() == dest {
    } else {
        let up = routes_via(grid, path, dest, max_len, Direction::Up);
        let down = routes_via(grid, path, dest, max_len, Direction::Down);
        let right = routes_via(grid, path, dest, max_len, Direction::Right);
        let left = routes_via(grid, path, dest, max_len, Direction::Left);
        lemma_found_once_via(grid, path, dest, max_len, Direction::Up);
        lemma_found_once_via(grid, path, dest, max_len, Direction::Down);
        lemma_found_once_via(grid, path, dest, max_len, Direction::Right);
        lemma_found_once_via(grid, path, dest, max_len, Direction::Left);
        lemma_branches_apart(grid, path, dest, max_len, Direction::Up, Direction::Down);
        lemma_branches_apart(grid, path, dest, max_len, Direction::Up, Direction::Right);
        lemma_branches_apart(grid, path, dest, max_len, Direction::Down, Direction::Right);
        lemma_branches_apart(grid, path, dest, max_len, Direction::Up, Direction::Left);
        lemma_branches_apart(grid, path, dest, max_len, Direction::Down, Direction::Left);
        lemma_branches_apart(grid, path, dest, max_len, Direction::Right, Direction::Left);
        lemma_no_dup_in_concat(up, down);
        lemma_no_dup_in_concat(up + down, right);
        lemma_no_dup_in_concat(up + down + right, left);
    }
}

/// The search finds no route twice after a step in direction `d`.
proof fn lemma_found_once_via(
    grid: Grid,
    path: Seq<Coord>,
    dest: Coord,
    max_len: nat,
    d: Direction,
)
    ensures
        routes_via(grid, path, dest, max_len, d).no_duplicates(),
    decreases max_len + 1 - path.len(), 0nat,
{
    if path.len() <= max_len {
        match extended(grid, path, d) {
            Some(longer) => {
                lemma_found_once(grid, longer, dest, max_len);
            },
            None => {},
        }
    }
}

/// A search that does not overrun `max_len` misses no route for its length:
/// every path that continues the path to the destination holds at most
/// `max_len` cells.
pub proof fn lemma_continuation_is_short(
    grid: Grid,
    path: Seq<Coord>,
    dest: Coord,
    max_len: nat,
    route: Seq<Coord>,
)
    requires
        continues(grid, path, dest, route),
        !overruns(grid, path, dest, max_len),
    ensures
        route.len() <= max_len,
    decreases route.len() - path.len(),
{
    let n = path.len() as int;
    assert(route.take(n) == path);
    assert(route[n - 1] == path[n - 1]);
    if route.len() > n {
        assert(advances(grid, dest, route, n - 1));
        let to = route[n];
        let from = route[n - 1];
        let d = choose|d: Direction| step_target(grid, from, d) == Some(to);
        let longer = path.push(to);
        assert(route.take(n) =~= path);
        assert(extended(grid, path, d) == Some(longer));
        assert(route.take(n + 1) =~= longer);
        assert forall|j: int| longer.len() - 1 <= j < route.len() - 1 implies #[trigger] advances(
            grid,
            dest,
            route,
            j,
        ) by {
            assert(path.len() - 1 <= j);
        }
        assert(!overruns_via(grid, path, dest, max_len, d));
        lemma_continuation_is_short(grid, longer, dest, max_len, route);
    }
}

/// A path continues the path that holds `start` alone to `end` exactly when
/// it is a route from `start` to `end`.
pub proof fn lemma_route_continues_start(grid: Grid, start: Coord, end: Coord, route: Seq<Coord>)
    ensures
        continues(grid, seq![start], end, route) <==> is_route(grid, start, end, route),
{
    if continues(grid, seq![start], end, route) {
        assert(route.take(1)[0] == route[0]);
        assert forall|i: int| 0 <= i < route.len() - 1 implies #[trigger] legal_step(
            grid,
            route[i],
            route[i + 1],
        ) by {
            assert(advances(grid, end, route, i));
        }
        assert forall|i: int, j: int| 0 <= i < j < route.len() implies route[i] != route[j] by {
            assert(advances(grid, end, route, j - 1));
            assert(route.take(j)[i] == route[i]);
        }
    }
    if is_route(grid, start, end, route) {
        assert(route.take(1) =~= seq![start]);
        assert forall|i: int| 0 <= i < route.len() - 1 implies #[trigger] advances(
            grid,
            end,
            route,
            i,
        ) by {
            assert(legal_step(grid, route[i], route[i + 1]));
            assert(route[i] != route[route.len() - 1]);
            let before = route.take(i + 1);
            let next = route[i + 1];
            if before.contains(next) {
                let k = choose|k: int| 0 <= k < before.len() && before[k] == next;
                assert(route[k] == route[i + 1]);
            }
        }
    }
}

/// What a search that stays within its depth finds: exactly the paths that
/// continue `path` to `dest`, each of them once.
pub proof fn lemma_search_finds_continuations(
    grid: Grid,
    path: Seq<Coord>,
    dest: Coord,
    max_len: nat,
)
    ensures
        routes_within(grid, path, dest, max_len).no_duplicates(),
        !overruns(grid, path, dest, max_len) ==> forall|route: Seq<Coord>|
            #![trigger routes_within(grid, path, dest, max_len).contains(route)]
            #![trigger continues(grid, path, dest, route)]
            routes_within(grid, path, dest, max_len).contains(route) <==> continues(
                grid,
                path,
                dest,
                route,
            ),
{
    lemma_found_once(grid, path, dest, max_len);
    if !overruns(grid, path, dest, max_len) {
        assert forall|route: Seq<Coord>|
            routes_within(grid, path, dest, max_len).contains(route) <==> continues(
                grid,
                path,
                dest,
                route,
            ) by {
            if routes_within(grid, path, dest, max_len).contains(route) {
                lemma_found_continues(grid, path, dest, max_len, route);
            }
            if continues(grid, path, dest, route) {
                lemma_continuation_is_short(grid, path, dest, max_len, route);
                lemma_continuation_is_found(grid, path, dest, max_len, route);
            }
        }
    }
}

/// What a search that stays within its depth finds: exactly the routes from
/// `start` to `end`, each of them once.
pub proof fn lemma_search_finds_routes(grid: Grid, start: Coord, end: Coord, max_len: nat)
    requires
        !overruns(grid, seq![start], end, max_len),
    ensures
        routes_within(grid, seq![start], end, max_len).no_duplicates(),
        forall|route: Seq<Coord>|
            #![trigger routes_within(grid, seq![start], end, max_len).contains(route)]
            #![trigger is_route(grid, start, end, route)]
            routes_within(grid, seq![start], end, max_len).contains(route) <==> is_route(
                grid,
                start,
                end,
                route,
            ),
{
    lemma_found_once(grid, seq![start], end, max_len);
    assert forall|route: Seq<Coord>|
        routes_within(grid, seq![start], end, max_len).contains(route) <==> is_route(
            grid,
            start,
            end,
            route,
        ) by {
        lemma_route_continues_start(grid, start, end, route);
        if routes_within(grid, seq![start], end, max_len).contains(route) {
            lemma_found_continues(grid, seq![start], end, max_len, route);
        }
        if is_route(grid, start, end, route) {
            lemma_continuation_is_short(grid, seq![start], end, max_len, route);
            lemma_continuation_is_found(grid, seq![start], end, max_len, route);
        }
    }
}

/// Where no route leads from `start` to `end`, a search that stays within
/// its depth finds nothing.
pub proof fn lemma_no_route_nothing_found(grid: Grid, start: Coord, end: Coord, max_len: nat)
    requires
        !overruns(grid, seq![start], end, max_len),
        forall|route: Seq<Coord>| !is_route(grid, start, end, route),
    ensures
        routes_within(grid, seq![start], end, max_len).len() == 0,
{
    lemma_search_finds_routes(grid, start, end, max_len);
    let found = routes_within(grid, seq![start], end, max_len);
    if found.len() > 0 {
        assert(found.contains(found[0]));
        assert(is_route(grid, start, end, found[0]));
    }
}

/// The routes from `start` to `end`.
pub open spec fn routes(grid: Grid, start: Coord, end: Coord) -> Set<Seq<Coord>> {
    Set::new(|route: Seq<Coord>| is_route(grid, start, end, route))
}

/// A search that stays within its depth finds as many routes as there are.
pub proof fn lemma_route_count(grid: Grid, start: Coord, end: Coord, max_len: nat)
    requires
        !overruns(grid, seq![start], end, max_len),
    ensures
        routes(grid, start, end).finite(),
        routes_within(grid, seq![start], end, max_len).len() == routes(grid, start, end).len(),
{
    let found = routes_within(grid, seq![start], end, max_len);
    lemma_search_finds_routes(grid, start, end, max_len);
    assert(found.to_set() =~= routes(grid, start, end));
    seq_to_set_is_finite(found);
    found.unique_seq_to_set();
}

} // verus!
