//! Loading the maps of a tower-defense game.
//!
//! A map comes from its editor as a tileset, whose tiles carry custom
//! properties, and as layers of tile references. Loading it takes three
//! steps:
//!
//! - `classify` sorts the tiles by the role that their properties give them:
//!   road, construction point, starting point, end point;
//! - `terrain` builds the walkability grid from the layers and finds the
//!   cells where runners start and where they are bound for;
//! - `paths` finds every route from the one to the other on which no cell is
//!   entered twice.
//!
//! `asset::load_map` does all three. The modules whose names end in `_laws`
//! hold what is proved of the others.

pub mod asset;
pub mod class_laws;
pub mod classify;
pub mod coord;
pub mod depth_laws;
pub mod error;
pub mod grid;
pub mod layer_laws;
pub mod layers;
pub mod load_laws;
pub mod paths;
pub mod props;
pub mod reach_laws;
pub mod records;
pub mod route_laws;
pub mod routes;
pub mod state;
pub mod terrain;
