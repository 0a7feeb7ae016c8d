//! Loading a map: from the map as its editor wrote it to what the game
//! plays on.

use vstd::prelude::*;
use crate::classify::{classify_tileset, roles_of, Roles, TileDef};
use crate::coord::Coord;
use crate::error::LoadError;
use crate::grid::Grid;
use crate::layers::{all_fit, reports_misfit, Layer};
use crate::paths::{enumerate_paths, explodes, paths_view, routes_within, SearchLimits};
use crate::records::{map_records, tile_records, TileRecord};
use crate::routes::is_route;
use crate::terrain::{build_grid, placement_failure, portrays, Terrain};

verus! {

/// A map as its editor wrote it: its size in tiles, the size of a tile in
/// pixels, the tiles of its tileset and its layers, the bottom layer first.
#[derive(Clone, Debug)]
pub struct MapAsset {
    pub width: u32,
    pub height: u32,
    pub tile_width: u32,
    pub tile_height: u32,
    pub tiles: Vec<TileDef>,
    pub layers: Vec<Layer>,
}

/// A map that is ready to be played on: the ground, every route from the
/// starting point to the end point, and the tiles to draw.
#[derive(Clone, Debug)]
pub struct LoadedMap {
    pub grid: Grid,
    pub start: Coord,
    pub end: Coord,
    pub paths: Vec<Vec<Coord>>,
    pub records: Vec<TileRecord>,
}

impl LoadedMap {
    /// The ground of the map.
    pub open spec fn terrain(self) -> Terrain {
        Terrain { grid: self.grid, start: self.start, end: self.end }
    }
}

/// Whether the search for the routes of a map with the given tileset and
/// layers goes beyond `limits`.
pub open spec fn search_explodes(
    layers: Seq<Layer>,
    roles: Roles,
    width: usize,
    height: usize,
    limits: SearchLimits,
) -> bool {
    exists|terrain: Terrain| #[trigger]
        portrays(terrain, layers, roles, width, height) && explodes(
            terrain.grid,
            seq![terrain.start],
            terrain.end,
            limits,
        )
}

/// Loads a map: sorts the tiles of its tileset by their roles, builds the
/// walkability grid from its layers, finds every route from the starting
/// point to the end point, and lists the tiles to draw.
///
/// Fails, in this order, if the tileset is rejected, if a layer does not
/// have the shape of the map, if no cell shows the starting point or none
/// the end point, or if the search for routes goes beyond `limits`.
pub fn load_map(asset: &MapAsset, limits: &SearchLimits) -> (res: Result<LoadedMap, LoadError>)
    ensures
        match res {
            Ok(level) => {
                &&& roles_of(asset.tiles@) matches Ok(roles) && {
                    &&& all_fit(asset.layers@, asset.width as usize, asset.height as usize)
                    &&& portrays(
                        level.terrain(),
                        asset.layers@,
                        roles,
                        asset.width as usize,
                        asset.height as usize,
                    )
                    &&& level.records@ == map_records(
                        asset.layers@,
                        roles,
                        asset.width as usize,
                        asset.height as usize,
                    )
                }
                &&& !explodes(level.grid, seq![level.start], level.end, *limits)
                &&& paths_view(level.paths@) == routes_within(
                    level.grid,
                    seq![level.start],
                    level.end,
                    limits.max_depth as nat,
                )
                &&& paths_view(level.paths@).no_duplicates()
                &&& forall|route: Seq<Coord>|
                    #![trigger paths_view(level.paths@).contains(route)]
                    #![trigger is_route(level.grid, level.start, level.end, route)]
                    paths_view(level.paths@).contains(route) <==> is_route(
                        level.grid,
                        level.start,
                        level.end,
                        route,
                    )
            },
            Err(LoadError::Configuration(e)) => match roles_of(asset.tiles@) {
                Ok(roles) => {
                    &&& all_fit(asset.layers@, asset.width as usize, asset.height as usize)
                    &&& placement_failure(
                        asset.layers@,
                        roles,
                        asset.width as usize,
                        asset.height as usize,
                    ) == Some(e)
                },
                Err(rejection) => e == rejection,
            },
            Err(LoadError::MalformedAsset(defect)) => {
                &&& roles_of(asset.tiles@) is Ok
                &&& reports_misfit(
                    asset.layers@,
                    asset.width as usize,
                    asset.height as usize,
                    defect,
                )
            },
            Err(LoadError::PathExplosion(_)) => roles_of(asset.tiles@) matches Ok(roles) && {
                &&& all_fit(asset.layers@, asset.width as usize, asset.height as usize)
                &&& placement_failure(
                    asset.layers@,
                    roles,
                    asset.width as usize,
                    asset.height as usize,
                ) is None
                &&& search_explodes(
                    asset.layers@,
                    roles,
                    asset.width as usize,
                    asset.height as usize,
                    *limits,
                )
            },
        },
{
    let classes = match classify_tileset(&asset.tiles) {
        Ok(classes) => classes,
        Err(e) => {
            return Err(LoadError::Configuration(e));
        },
    };
    let width: usize = asset.width as usize;
    let height: usize = asset.height as usize;
    let terrain = match build_grid(&asset.layers, width, height, &classes) {
        Ok(terrain) => terrain,
        Err(e) => {
            return Err(e);
        },
    };
    let records = match tile_records(&asset.layers, width, height, &classes) {
        Ok(records) => records,
        Err(defect) => {
            return Err(LoadError::MalformedAsset(defect));
        },
    };
    let paths = match enumerate_paths(&terrain.grid, terrain.start, terrain.end, limits) {
        Ok(paths) => paths,
        Err(e) => {
            return Err(LoadError::PathExplosion(e));
        },
    };
    Ok(LoadedMap { grid: terrain.grid, start: terrain.start, end: terrain.end, paths, records })
}

} // verus!
