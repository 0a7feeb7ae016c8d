use tower_def::asset::{load_map, MapAsset};
use tower_def::classify::TileDef;
use tower_def::coord::{Coord, DirectionMask};
use tower_def::error::{
    ConfigurationError, LoadError, MalformedAssetError, PathExplosionError,
};
use tower_def::layers::Layer;
use tower_def::paths::SearchLimits;
use tower_def::props::{Properties, PropertyValue};
use tower_def::records::TileRecord;

fn flags(names: &[&str]) -> Properties {
    let mut props = Properties::new();
    for name in names {
        props.insert(name.to_string(), PropertyValue::Bool(true));
    }
    props
}

/// Tile 0 is grass, tile 1 the starting point, tile 2 the end point, tile 3
/// a road that leads right, tile 4 a road that leads up, tile 5 a
/// construction point and tile 6 a road that leads up and right.
fn tileset() -> Vec<TileDef> {
    vec![
        TileDef { id: 0, properties: Properties::new() },
        TileDef { id: 1, properties: flags(&["start-point"]) },
        TileDef { id: 2, properties: flags(&["end-point"]) },
        TileDef { id: 3, properties: flags(&["road", "right"]) },
        TileDef { id: 4, properties: flags(&["road", "up"]) },
        TileDef { id: 5, properties: flags(&["construction-point"]) },
        TileDef { id: 6, properties: flags(&["road", "up", "right"]) },
    ]
}

fn asset(width: u32, height: u32, layers: Vec<Vec<Vec<u32>>>) -> MapAsset {
    MapAsset {
        width,
        height,
        tile_width: 32,
        tile_height: 32,
        tiles: tileset(),
        layers: layers.into_iter().map(|rows| Layer { rows }).collect(),
    }
}

fn c(x: usize, y: usize) -> Coord {
    Coord::new(x, y)
}

#[test]
fn a_map_is_loaded_whole() {
    // References are tile numbers plus one. The start lies at the bottom
    // left, the end at the top right; one route leads along the bottom and
    // up the right edge, one up the left edge and along the top.
    let ground = vec![vec![4, 4, 3], vec![5, 6, 5], vec![7, 4, 5]];
    let marks = vec![vec![0, 0, 0], vec![0, 0, 0], vec![2, 0, 0]];
    let map = asset(3, 3, vec![ground, marks]);
    let level = load_map(&map, &SearchLimits::new(9, 16)).unwrap();
    assert_eq!(level.start, c(0, 0));
    assert_eq!(level.end, c(2, 2));
    assert_eq!(level.grid.mask(c(0, 0)), DirectionMask::full());
    assert_eq!(level.grid.mask(c(1, 0)).bits(), 0b0010);
    assert_eq!(level.grid.mask(c(2, 0)).bits(), 0b0001);
    assert_eq!(level.grid.mask(c(1, 1)).bits(), 0);
    assert_eq!(level.grid.mask(c(2, 2)), DirectionMask::full());
    assert_eq!(
        level.paths,
        vec![
            vec![c(0, 0), c(0, 1), c(0, 2), c(1, 2), c(2, 2)],
            vec![c(0, 0), c(1, 0), c(2, 0), c(2, 1), c(2, 2)],
        ]
    );
    assert_eq!(level.records.len(), 10);
    assert_eq!(
        level.records[0],
        TileRecord { coord: c(0, 0), tile_id: 6, build_point: false }
    );
    assert_eq!(
        level.records[4],
        TileRecord { coord: c(1, 1), tile_id: 5, build_point: true }
    );
    assert_eq!(
        level.records[9],
        TileRecord { coord: c(0, 0), tile_id: 1, build_point: false }
    );
}

#[test]
fn a_map_without_routes_loads_with_none() {
    let map = asset(3, 1, vec![vec![vec![2, 1, 3]]]);
    let level = load_map(&map, &SearchLimits::new(3, 4)).unwrap();
    assert_eq!(level.start, c(0, 0));
    assert_eq!(level.end, c(2, 0));
    assert!(level.paths.is_empty());
}

#[test]
fn a_rejected_tileset_fails_the_load() {
    let mut map = asset(1, 1, vec![vec![vec![2]]]);
    map.tiles.remove(1);
    assert_eq!(
        load_map(&map, &SearchLimits::new(1, 1)).unwrap_err(),
        LoadError::Configuration(ConfigurationError::MissingStartTile)
    );
    let mut map = asset(1, 1, vec![vec![vec![2]]]);
    map.tiles.remove(2);
    assert_eq!(
        load_map(&map, &SearchLimits::new(1, 1)).unwrap_err(),
        LoadError::Configuration(ConfigurationError::MissingEndTile)
    );
    let mut map = asset(1, 1, vec![vec![vec![2]]]);
    map.tiles.push(TileDef { id: 8, properties: flags(&["road", "end-point"]) });
    assert_eq!(
        load_map(&map, &SearchLimits::new(1, 1)).unwrap_err(),
        LoadError::Configuration(ConfigurationError::ConflictingRoles { tile: 8 })
    );
}

#[test]
fn the_tileset_is_checked_before_the_layers() {
    let mut map = asset(2, 1, vec![vec![vec![2]]]);
    map.tiles.remove(1);
    assert_eq!(
        load_map(&map, &SearchLimits::new(1, 1)).unwrap_err(),
        LoadError::Configuration(ConfigurationError::MissingStartTile)
    );
}

#[test]
fn a_misshapen_layer_fails_the_load() {
    let map = asset(2, 1, vec![vec![vec![2, 3]], vec![vec![0, 0], vec![0, 0]]]);
    assert_eq!(
        load_map(&map, &SearchLimits::new(2, 1)).unwrap_err(),
        LoadError::MalformedAsset(MalformedAssetError::LayerHeight { layer: 1 })
    );
    let map = asset(2, 1, vec![vec![vec![2, 3, 0]]]);
    assert_eq!(
        load_map(&map, &SearchLimits::new(2, 1)).unwrap_err(),
        LoadError::MalformedAsset(MalformedAssetError::RowWidth { layer: 0, row: 0 })
    );
}

#[test]
fn a_map_that_shows_no_start_or_end_fails_the_load() {
    let map = asset(2, 1, vec![vec![vec![4, 3]]]);
    assert_eq!(
        load_map(&map, &SearchLimits::new(2, 1)).unwrap_err(),
        LoadError::Configuration(ConfigurationError::StartNotPlaced)
    );
    let map = asset(2, 1, vec![vec![vec![2, 4]]]);
    assert_eq!(
        load_map(&map, &SearchLimits::new(2, 1)).unwrap_err(),
        LoadError::Configuration(ConfigurationError::EndNotPlaced)
    );
}

#[test]
fn a_search_beyond_its_limits_fails_the_load() {
    let ground = vec![vec![4, 4, 3], vec![5, 6, 5], vec![2, 4, 5]];
    let map = asset(3, 3, vec![ground]);
    assert_eq!(
        load_map(&map, &SearchLimits::new(9, 1)).unwrap_err(),
        LoadError::PathExplosion(PathExplosionError {})
    );
    assert_eq!(
        load_map(&map, &SearchLimits::new(4, 2)).unwrap_err(),
        LoadError::PathExplosion(PathExplosionError {})
    );
    assert_eq!(load_map(&map, &SearchLimits::new(5, 2)).unwrap().paths.len(), 2);
}

fn property(value: &tiled::PropertyValue) -> PropertyValue {
    match value {
        tiled::PropertyValue::BoolValue(b) => PropertyValue::Bool(*b),
        tiled::PropertyValue::FloatValue(f) => PropertyValue::Float(f.to_bits()),
        tiled::PropertyValue::IntValue(i) => PropertyValue::Int(*i),
        tiled::PropertyValue::ColorValue(c) => PropertyValue::Color(*c),
        tiled::PropertyValue::StringValue(s) => PropertyValue::Text(s.clone()),
    }
}

fn from_tiled(map: &tiled::Map) -> MapAsset {
    let tiles = map.tilesets[0]
        .tiles
        .iter()
        .map(|tile| {
            let mut properties = Properties::new();
            for (key, value) in &tile.properties {
                properties.insert(key.clone(), property(value));
            }
            TileDef { id: tile.id, properties }
        })
        .collect();
    let layers = map
        .layers
        .iter()
        .map(|layer| Layer {
            rows: layer
                .tiles
                .iter()
                .map(|row| row.iter().map(|tile| tile.gid).collect())
                .collect(),
        })
        .collect();
    MapAsset {
        width: map.width,
        height: map.height,
        tile_width: map.tile_width,
        tile_height: map.tile_height,
        tiles,
        layers,
    }
}

#[test]
fn a_parsed_map_is_loaded() {
    let text = r#"<?xml version="1.0" encoding="UTF-8"?>
<map version="1.0" orientation="orthogonal" width="3" height="2" tilewidth="32" tileheight="32">
 <tileset firstgid="1" name="ground" tilewidth="32" tileheight="32">
  <image source="ground.png" width="128" height="32"/>
  <tile id="0">
   <properties>
    <property name="start-point" type="bool" value="true"/>
    <property name="up" type="bool" value="false"/>
   </properties>
  </tile>
  <tile id="1">
   <properties>
    <property name="end-point" type="bool" value="true"/>
   </properties>
  </tile>
  <tile id="2">
   <properties>
    <property name="road" type="bool" value="true"/>
    <property name="right" type="bool" value="true"/>
    <property name="up" type="bool" value="false"/>
    <property name="cost" type="float" value="1.5"/>
   </properties>
  </tile>
  <tile id="3">
   <properties>
    <property name="construction-point" type="bool" value="true"/>
    <property name="label" value="slot"/>
   </properties>
  </tile>
 </tileset>
 <layer name="ground" width="3" height="2">
  <data encoding="csv">
4,4,4,
1,3,2
</data>
 </layer>
</map>
"#;
    let parsed = tiled::parse(text.as_bytes()).unwrap();
    let map = from_tiled(&parsed);
    assert_eq!(map.width, 3);
    assert_eq!(map.height, 2);
    assert_eq!(map.tiles.len(), 4);
    assert_eq!(map.tiles[2].properties.get("cost"), Some(&PropertyValue::Float(1.5f32.to_bits())));
    assert_eq!(
        map.tiles[3].properties.get("label"),
        Some(&PropertyValue::Text("slot".to_string()))
    );
    let level = load_map(&map, &SearchLimits::new(6, 8)).unwrap();
    assert_eq!(level.start, c(0, 0));
    assert_eq!(level.end, c(2, 0));
    assert_eq!(level.grid.mask(c(0, 0)), DirectionMask::full());
    assert_eq!(level.grid.mask(c(1, 0)).bits(), 0b0010);
    assert_eq!(level.grid.mask(c(1, 1)).bits(), 0);
    assert_eq!(level.paths, vec![vec![c(0, 0), c(1, 0), c(2, 0)]]);
    assert_eq!(level.records.len(), 6);
    assert_eq!(
        level.records[3],
        TileRecord { coord: c(0, 1), tile_id: 3, build_point: true }
    );
}
