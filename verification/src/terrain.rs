//! From layers to a walkability grid with its starting point and end point.

use vstd::prelude::*;
use crate::classify::{Classification, Roles};
use crate::coord::{Coord, DirectionMask};
use crate::error::{ConfigurationError, LoadError};
use crate::grid::Grid;
use crate::layers::{
    all_fit,
    check_layers,
    decided_mask,
    deciding_tile,
    deciding_tile_at,
    reports_misfit,
    Layer,
};

verus! {

/// What the layers of a map say of the ground: where runners can walk, where
/// they start and where they are bound for.
#[derive(Clone, Debug)]
pub struct Terrain {
    pub grid: Grid,
    pub start: Coord,
    pub end: Coord,
}

/// Whether cell `a` is scanned after cell `b`: the map is scanned row by row
/// from the bottom, each row from left to right.
pub open spec fn comes_after(a: Coord, b: Coord) -> bool {
    a.y > b.y || (a.y == b.y && a.x > b.x)
}

/// Whether cell `c` shows the tile `id`: that tile decides the cell.
pub open spec fn shows(
    layers: Seq<Layer>,
    roles: Roles,
    height: usize,
    c: Coord,
    id: u32,
) -> bool {
    deciding_tile(layers, roles, height, c) == Some(id)
}

/// Whether `c` is the last cell among those scanned before `(x, y)` that
/// shows the tile `id`, or `None` where none of them shows it.
pub open spec fn last_showing_before(
    layers: Seq<Layer>,
    roles: Roles,
    width: usize,
    height: usize,
    id: u32,
    x: usize,
    y: usize,
    c: Option<Coord>,
) -> bool {
    match c {
        Some(c) => {
            &&& c.x < width
            &&& c.y < height
            &&& comes_after(Coord { x, y }, c)
            &&& shows(layers, roles, height, c, id)
            &&& forall|o: Coord|
                o.x < width && o.y < height && comes_after(Coord { x, y }, o) && #[trigger] shows(
                    layers,
                    roles,
                    height,
                    o,
                    id,
                ) ==> !comes_after(o, c)
        },
        None => forall|o: Coord|
            o.x < width && o.y < height && comes_after(Coord { x, y }, o) ==> !#[trigger] shows(
                layers,
                roles,
                height,
                o,
                id,
            ),
    }
}

/// Whether `c` is the last cell of the map that shows the tile `id`.
pub open spec fn last_showing(
    layers: Seq<Layer>,
    roles: Roles,
    width: usize,
    height: usize,
    id: u32,
    c: Coord,
) -> bool {
    &&& c.x < width
    &&& c.y < height
    &&& shows(layers, roles, height, c, id)
    &&& forall|o: Coord|
        o.x < width && o.y < height && #[trigger] shows(layers, roles, height, o, id)
            ==> !comes_after(o, c)
}

/// Whether no cell of the map shows the tile `id`.
pub open spec fn shown_nowhere(
    layers: Seq<Layer>,
    roles: Roles,
    width: usize,
    height: usize,
    id: u32,
) -> bool {
    forall|o: Coord|
        o.x < width && o.y < height ==> !#[trigger] shows(layers, roles, height, o, id)
}

/// Why the layers of a map do not say where runners start and where they
/// are bound for: because no cell shows the starting point or, after that,
/// because no cell shows the end point.
pub open spec fn placement_failure(
    layers: Seq<Layer>,
    roles: Roles,
    width: usize,
    height: usize,
) -> Option<ConfigurationError> {
    if shown_nowhere(layers, roles, width, height, roles.start_tile) {
        Some(ConfigurationError::StartNotPlaced)
    } else if shown_nowhere(layers, roles, width, height, roles.end_tile) {
        Some(ConfigurationError::EndNotPlaced)
    } else {
        None
    }
}

/// Whether `terrain` is what the layers of a map say of the ground: a grid
/// of the map's size in which each cell has the mask that its deciding tile
/// gives it, with the last cell that shows the starting point and the last
/// cell that shows the end point.
pub open spec fn portrays(
    terrain: Terrain,
    layers: Seq<Layer>,
    roles: Roles,
    width: usize,
    height: usize,
) -> bool {
    &&& terrain.grid.wf()
    &&& terrain.grid.spec_width() == width
    &&& terrain.grid.spec_height() == height
    &&& forall|c: Coord|
        terrain.grid.contains(c) ==> #[trigger] terrain.grid.mask_at(c) == decided_mask(
            layers,
            roles,
            height,
            c,
        )
    &&& last_showing(layers, roles, width, height, roles.start_tile, terrain.start)
    &&& last_showing(layers, roles, width, height, roles.end_tile, terrain.end)
}

/// Builds the walkability grid of a map from its layers, and finds its
/// starting point and its end point.
///
/// Each cell gets the mask that its deciding tile gives it: every direction
/// for the starting point and the end point, the tile's own mask for a road.
/// A cell that no tile decides stays impassable. Where several cells show
/// the starting point, or the end point, the last one scanned counts.
///
/// Fails if a layer does not have the shape of the map, if no cell shows
/// the starting point, or, after that, if no cell shows the end point.
pub fn build_grid(layers: &Vec<Layer>, width: usize, height: usize, classes: &Classification) -> (res:
    Result<Terrain, LoadError>)
    ensures
        match res {
            Ok(terrain) => {
                &&& all_fit(layers@, width, height)
                &&& placement_failure(layers@, classes@, width, height) is None
                &&& portrays(terrain, layers@, classes@, width, height)
                &&& terrain.grid.mask_at(terrain.start) == DirectionMask::open()
                &&& terrain.grid.mask_at(terrain.end) == DirectionMask::open()
            },
            Err(LoadError::MalformedAsset(defect)) => reports_misfit(layers@, width, height, defect),
            Err(LoadError::Configuration(e)) => {
                &&& all_fit(layers@, width, height)
                &&& placement_failure(layers@, classes@, width, height) == Some(e)
            },
            Err(_) => false,
        },
{
    match check_layers(layers, width, height) {
        Ok(_) => {},
        Err(defect) => {
            return Err(LoadError::MalformedAsset(defect));
        },
    }
    let mut grid = Grid::new(width, height);
    let mut start: Option<Coord> = None;
    let mut end: Option<Coord> = None;
    let mut y: usize = 0;
    while y < height
        invariant
            y <= height,
            all_fit(layers@, width, height),
            grid.wf(),
            grid.spec_width() == width,
            grid.spec_height() == height,
            forall|c: Coord|
                grid.contains(c) ==> #[trigger] grid.mask_at(c) == (if c.y < y {
                    decided_mask(layers@, classes@, height, c)
                } else {
                    DirectionMask::blocked()
                }),
            last_showing_before(layers@, classes@, width, height, classes.start_tile, 0, y, start),
            last_showing_before(layers@, classes@, width, height, classes.end_tile, 0, y, end),
        decreases height - y,
    {
        let mut x: usize = 0;
        while x < width
            invariant
                y < height,
                x <= width,
                all_fit(layers@, width, height),
                grid.wf(),
                grid.spec_width() == width,
                grid.spec_height() == height,
                forall|c: Coord|
                    grid.contains(c) ==> #[trigger] grid.mask_at(c) == (if comes_after(
                        Coord { x, y },
                        c,
                    ) {
                        decided_mask(layers@, classes@, height, c)
                    } else {
                        DirectionMask::blocked()
                    }),
                last_showing_before(
                    layers@,
                    classes@,
                    width,
                    height,
                    classes.start_tile,
                    x,
                    y,
                    start,
                ),
                last_showing_before(layers@, classes@, width, height, classes.end_tile, x, y, end),
            decreases width - x,
        {
            let c = Coord::new(x, y);
            match deciding_tile_at(layers, classes, width, height, c) {
                Some(id) => {
                    match classes.mask_for(id) {
                        Some(mask) => {
                            grid.set(c, mask);
                        },
                        None => {},
                    }
                    if id == classes.start_tile {
                        start = Some(c);
                    }
                    if id == classes.end_tile {
                        end = Some(c);
                    }
                },
                None => {},
            }
            x = x + 1;
        }
        y = y + 1;
    }
    match start {
        None => Err(LoadError::Configuration(ConfigurationError::StartNotPlaced)),
        Some(start) => {
            assert(shows(layers@, classes@, height, start, classes.start_tile));
            match end {
                None => Err(LoadError::Configuration(ConfigurationError::EndNotPlaced)),
                Some(end) => {
                    assert(shows(layers@, classes@, height, end, classes.end_tile));
                    Ok(Terrain { grid, start, end })
                },
            }
        },
    }
}

} // verus!
