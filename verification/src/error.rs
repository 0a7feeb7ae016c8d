//! The ways in which loading a map can fail.

use vstd::prelude::*;

verus! {

/// The map does not say what the game needs to know.
#[derive(Clone, Copy, Debug, PartialEq, Eq, Structural)]
pub enum ConfigurationError {
    /// A tile is marked with more than one role.
    ConflictingRoles { tile: u32 },
    /// No tile of the tileset is marked as the starting point.
    MissingStartTile,
    /// No tile of the tileset is marked as the end point.
    MissingEndTile,
    /// No cell of the map shows the starting point.
    StartNotPlaced,
    /// No cell of the map shows the end point.
    EndNotPlaced,
}

/// The map's data does not have the shape of a map.
#[derive(Clone, Copy, Debug, PartialEq, Eq, Structural)]
pub enum MalformedAssetError {
    /// A layer does not have one row for each unit of the map's height.
    LayerHeight { layer: usize },
    /// A row of a layer does not have one tile for each unit of the map's
    /// width.
    RowWidth { layer: usize, row: usize },
}

/// The search for routes went beyond one of its limits.
#[derive(Clone, Copy, Debug, PartialEq, Eq, Structural)]
pub struct PathExplosionError {}

/// Why a map could not be loaded.
#[derive(Clone, Copy, Debug, PartialEq, Eq, Structural)]
pub enum LoadError {
    Configuration(ConfigurationError),
    MalformedAsset(MalformedAssetError),
    PathExplosion(PathExplosionError),
}

impl ConfigurationError {
    /// What to tell the player.
    pub open spec fn text(self) -> Seq<char> {
        match self {
            ConfigurationError::ConflictingRoles { .. } => "A tile is defined with more than one role!"@,
            ConfigurationError::MissingStartTile => "No tile defined as starting point!"@,
            ConfigurationError::MissingEndTile => "No tile defined as end point!"@,
            ConfigurationError::StartNotPlaced => "No starting point on the map!"@,
            ConfigurationError::EndNotPlaced => "No end point on the map!"@,
        }
    }

    /// What to tell the player.
    pub fn message(&self) -> (text: &'static str)
        ensures
            text@ == self.text(),
    {
        match self {
            ConfigurationError::ConflictingRoles { .. } => "A tile is defined with more than one role!",
            ConfigurationError::MissingStartTile => "No tile defined as starting point!",
            ConfigurationError::MissingEndTile => "No tile defined as end point!",
            ConfigurationError::StartNotPlaced => "No starting point on the map!",
            ConfigurationError::EndNotPlaced => "No end point on the map!",
        }
    }
}

impl MalformedAssetError {
    /// What to tell the player.
    pub open spec fn text(self) -> Seq<char> {
        match self {
            MalformedAssetError::LayerHeight { .. } => "A layer has the wrong number of rows!"@,
            MalformedAssetError::RowWidth { .. } => "A row of a layer has the wrong number of tiles!"@,
        }
    }

    /// What to tell the player.
    pub fn message(&self) -> (text: &'static str)
        ensures
            text@ == self.text(),
    {
        match self {
            MalformedAssetError::LayerHeight { .. } => "A layer has the wrong number of rows!",
            MalformedAssetError::RowWidth { .. } => "A row of a layer has the wrong number of tiles!",
        }
    }
}

impl PathExplosionError {
    /// What to tell the player.
    pub open spec fn text(self) -> Seq<char> {
        "Too many or too long paths on the map!"@
    }

    /// What to tell the player.
    pub fn message(&self) -> (text: &'static str)
        ensures
            text@ == self.text(),
    {
        "Too many or too long paths on the map!"
    }
}

impl LoadError {
    /// What to tell the player: the message of the error inside.
    pub open spec fn text(self) -> Seq<char> {
        match self {
            LoadError::Configuration(e) => e.text(),
            LoadError::MalformedAsset(e) => e.text(),
            LoadError::PathExplosion(e) => e.text(),
        }
    }

    /// What to tell the player.
    pub fn message(&self) -> (text: &'static str)
        ensures
            text@ == self.text(),
    {
        match self {
            LoadError::Configuration(e) => e.message(),
            LoadError::MalformedAsset(e) => e.message(),
            LoadError::PathExplosion(e) => e.message(),
        }
    }
}

} // verus!
