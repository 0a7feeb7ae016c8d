use tower_def::error::{
    ConfigurationError, LoadError, MalformedAssetError, PathExplosionError,
};
use tower_def::paths::SearchLimits;

#[test]
fn every_error_has_its_message() {
    assert_eq!(
        ConfigurationError::MissingStartTile.message(),
        "No tile defined as starting point!"
    );
    assert_eq!(
        ConfigurationError::MissingEndTile.message(),
        "No tile defined as end point!"
    );
    assert_eq!(
        ConfigurationError::ConflictingRoles { tile: 3 }.message(),
        "A tile is defined with more than one role!"
    );
    assert_eq!(
        ConfigurationError::StartNotPlaced.message(),
        "No starting point on the map!"
    );
    assert_eq!(ConfigurationError::EndNotPlaced.message(), "No end point on the map!");
    assert_eq!(
        MalformedAssetError::LayerHeight { layer: 0 }.message(),
        "A layer has the wrong number of rows!"
    );
    assert_eq!(
        MalformedAssetError::RowWidth { layer: 0, row: 1 }.message(),
        "A row of a layer has the wrong number of tiles!"
    );
    assert_eq!(
        PathExplosionError {}.message(),
        "Too many or too long paths on the map!"
    );
}

#[test]
fn a_load_error_speaks_for_its_cause() {
    assert_eq!(
        LoadError::Configuration(ConfigurationError::EndNotPlaced).message(),
        ConfigurationError::EndNotPlaced.message()
    );
    assert_eq!(
        LoadError::MalformedAsset(MalformedAssetError::LayerHeight { layer: 2 }).message(),
        MalformedAssetError::LayerHeight { layer: 2 }.message()
    );
    assert_eq!(
        LoadError::PathExplosion(PathExplosionError {}).message(),
        PathExplosionError {}.message()
    );
}

#[test]
fn limits_for_a_size_cover_its_cells() {
    assert_eq!(SearchLimits::for_size(5, 4, 9), SearchLimits::new(20, 9));
    assert_eq!(SearchLimits::for_size(0, 0, 9), SearchLimits::new(1, 9));
    assert_eq!(SearchLimits::for_size(7, 0, 9), SearchLimits::new(1, 9));
    assert_eq!(
        SearchLimits::for_size(usize::MAX, 2, 9),
        SearchLimits::new(usize::MAX, 9)
    );
    assert_eq!(
        SearchLimits::for_size(usize::MAX, 1, 9),
        SearchLimits::new(usize::MAX, 9)
    );
}
