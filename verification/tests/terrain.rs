use std::collections::{HashMap, HashSet};
use tower_def::classify::Classification;
use tower_def::coord::{Coord, DirectionMask};
use tower_def::error::{ConfigurationError, LoadError, MalformedAssetError};
use tower_def::layers::{check_layer, check_layers, deciding_tile_at, reference, Layer};
use tower_def::records::{tile_records, TileRecord};
use tower_def::terrain::build_grid;

const START: u32 = 10;
const END: u32 = 11;
const ROAD_UP: u32 = 1;
const ROAD_RIGHT: u32 = 2;
const BUILD: u32 = 5;
const GRASS: u32 = 7;

/// Tile 1 is a road that leads up, tile 2 a road that leads right, tile 5 a
/// construction point, tile 10 the starting point and tile 11 the end point.
fn classes() -> Classification {
    let mut road_masks = HashMap::new();
    road_masks.insert(ROAD_UP, DirectionMask::from_flags(true, false, false, false));
    road_masks.insert(ROAD_RIGHT, DirectionMask::from_flags(false, true, false, false));
    let mut construction_points = HashSet::new();
    construction_points.insert(BUILD);
    Classification { road_masks, construction_points, start_tile: START, end_tile: END }
}

/// A layer from rows of tile numbers, the top row first; `None` is a cell
/// without a tile.
fn layer(rows: &[&[Option<u32>]]) -> Layer {
    Layer {
        rows: rows
            .iter()
            .map(|row| row.iter().map(|tile| tile.map_or(0, |id| id + 1)).collect())
            .collect(),
    }
}

#[test]
fn references_are_tile_numbers_plus_one() {
    let ground = Layer { rows: vec![vec![0, 3], vec![12, 1]] };
    assert_eq!(reference(&ground, 2, 2, Coord::new(0, 0)), 12);
    assert_eq!(reference(&ground, 2, 2, Coord::new(1, 0)), 1);
    assert_eq!(reference(&ground, 2, 2, Coord::new(0, 1)), 0);
    assert_eq!(reference(&ground, 2, 2, Coord::new(1, 1)), 3);
    let layers = vec![ground];
    // Reference 12 is tile 11, the end point; reference 3 is tile 2, a road.
    assert_eq!(deciding_tile_at(&layers, &classes(), 2, 2, Coord::new(0, 0)), Some(END));
    assert_eq!(deciding_tile_at(&layers, &classes(), 2, 2, Coord::new(1, 1)), Some(ROAD_RIGHT));
    // Reference 1 is tile 0, which has no role; reference 0 is no tile.
    assert_eq!(deciding_tile_at(&layers, &classes(), 2, 2, Coord::new(1, 0)), None);
    assert_eq!(deciding_tile_at(&layers, &classes(), 2, 2, Coord::new(0, 1)), None);
}

#[test]
fn the_bottom_row_of_a_layer_is_row_zero() {
    let layers = vec![layer(&[
        &[Some(END), None],
        &[Some(ROAD_UP), None],
        &[Some(START), Some(ROAD_RIGHT)],
    ])];
    let terrain = build_grid(&layers, 2, 3, &classes()).unwrap();
    assert_eq!(terrain.start, Coord::new(0, 0));
    assert_eq!(terrain.end, Coord::new(0, 2));
    assert_eq!(terrain.grid.width(), 2);
    assert_eq!(terrain.grid.height(), 3);
    assert_eq!(terrain.grid.mask(Coord::new(0, 0)).bits(), 0b1111);
    assert_eq!(terrain.grid.mask(Coord::new(1, 0)).bits(), 0b0010);
    assert_eq!(terrain.grid.mask(Coord::new(0, 1)).bits(), 0b0001);
    assert_eq!(terrain.grid.mask(Coord::new(1, 1)).bits(), 0);
    assert_eq!(terrain.grid.mask(Coord::new(0, 2)).bits(), 0b1111);
    assert_eq!(terrain.grid.mask(Coord::new(1, 2)).bits(), 0);
}

#[test]
fn the_topmost_layer_wins() {
    // One cell, two layers with different roads: the upper layer decides.
    let mut classes = classes();
    classes.start_tile = 100;
    classes.end_tile = 101;
    let lower_first = vec![layer(&[&[Some(ROAD_UP)]]), layer(&[&[Some(ROAD_RIGHT)]])];
    assert_eq!(
        deciding_tile_at(&lower_first, &classes, 1, 1, Coord::new(0, 0)),
        Some(ROAD_RIGHT)
    );
    let upper_first = vec![layer(&[&[Some(ROAD_RIGHT)]]), layer(&[&[Some(ROAD_UP)]])];
    assert_eq!(
        deciding_tile_at(&upper_first, &classes, 1, 1, Coord::new(0, 0)),
        Some(ROAD_UP)
    );
}

#[test]
fn the_topmost_layer_wins_in_the_grid() {
    // A 2x1 map: the start lies under a road on the left, so no cell shows
    // it there; the right cell holds the start and then the end on top.
    let layers = vec![
        layer(&[&[Some(ROAD_UP), Some(START)]]),
        layer(&[&[Some(START), Some(END)]]),
        layer(&[&[Some(ROAD_RIGHT), None]]),
    ];
    assert_eq!(
        build_grid(&layers, 2, 1, &classes()).unwrap_err(),
        LoadError::Configuration(ConfigurationError::StartNotPlaced)
    );
    let layers = vec![
        layer(&[&[Some(ROAD_UP), Some(START)]]),
        layer(&[&[Some(END), None]]),
        layer(&[&[None, None]]),
    ];
    let terrain = build_grid(&layers, 2, 1, &classes()).unwrap();
    assert_eq!(terrain.start, Coord::new(1, 0));
    assert_eq!(terrain.end, Coord::new(0, 0));
    assert_eq!(terrain.grid.mask(Coord::new(0, 0)).bits(), 0b1111);
}

#[test]
fn tiles_without_a_role_are_looked_through() {
    let layers = vec![
        layer(&[&[Some(START), Some(ROAD_RIGHT), Some(END)]]),
        layer(&[&[Some(GRASS), Some(BUILD), None]]),
    ];
    let terrain = build_grid(&layers, 3, 1, &classes()).unwrap();
    assert_eq!(terrain.start, Coord::new(0, 0));
    assert_eq!(terrain.end, Coord::new(2, 0));
    assert_eq!(terrain.grid.mask(Coord::new(1, 0)).bits(), 0b0010);
}

#[test]
fn start_and_end_cells_allow_every_direction() {
    // The starting point and the end point are filed as roads too.
    let mut classes = classes();
    classes.road_masks.insert(START, DirectionMask::from_flags(true, false, false, false));
    classes.road_masks.insert(END, DirectionMask::none());
    let layers = vec![layer(&[&[Some(START), Some(ROAD_UP), Some(END)]])];
    let terrain = build_grid(&layers, 3, 1, &classes).unwrap();
    assert_eq!(terrain.grid.mask(terrain.start), DirectionMask::full());
    assert_eq!(terrain.grid.mask(terrain.end), DirectionMask::full());
    assert_eq!(terrain.grid.mask(Coord::new(0, 0)).bits(), 0b1111);
    assert_eq!(terrain.grid.mask(Coord::new(1, 0)).bits(), 0b0001);
    assert_eq!(terrain.grid.mask(Coord::new(2, 0)).bits(), 0b1111);
}

#[test]
fn the_last_cell_scanned_is_the_start() {
    // Rows are scanned from the bottom, each from left to right.
    let layers = vec![layer(&[
        &[Some(START), None, Some(END)],
        &[Some(START), Some(START), Some(END)],
    ])];
    let terrain = build_grid(&layers, 3, 2, &classes()).unwrap();
    assert_eq!(terrain.start, Coord::new(0, 1));
    assert_eq!(terrain.end, Coord::new(2, 1));
    for cell in [Coord::new(0, 0), Coord::new(1, 0), Coord::new(0, 1)] {
        assert_eq!(terrain.grid.mask(cell), DirectionMask::full());
    }
    let layers = vec![layer(&[&[None, None, Some(END)], &[Some(START), Some(START), None]])];
    let terrain = build_grid(&layers, 3, 2, &classes()).unwrap();
    assert_eq!(terrain.start, Coord::new(1, 0));
}

#[test]
fn a_map_without_a_start_cell_is_rejected() {
    let layers = vec![layer(&[&[Some(ROAD_UP), Some(END)]])];
    assert_eq!(
        build_grid(&layers, 2, 1, &classes()).unwrap_err(),
        LoadError::Configuration(ConfigurationError::StartNotPlaced)
    );
    assert_eq!(
        build_grid(&Vec::new(), 2, 1, &classes()).unwrap_err(),
        LoadError::Configuration(ConfigurationError::StartNotPlaced)
    );
    assert_eq!(
        build_grid(&Vec::new(), 0, 0, &classes()).unwrap_err(),
        LoadError::Configuration(ConfigurationError::StartNotPlaced)
    );
}

#[test]
fn a_map_without_an_end_cell_is_rejected() {
    let layers = vec![layer(&[&[Some(ROAD_UP), Some(START)]])];
    assert_eq!(
        build_grid(&layers, 2, 1, &classes()).unwrap_err(),
        LoadError::Configuration(ConfigurationError::EndNotPlaced)
    );
}

#[test]
fn a_layer_of_the_wrong_height_is_rejected() {
    let good = layer(&[&[Some(START)], &[Some(END)]]);
    let short = layer(&[&[Some(START)]]);
    assert_eq!(check_layer(&good, 4, 1, 2), Ok(()));
    assert_eq!(
        check_layer(&short, 4, 1, 2),
        Err(MalformedAssetError::LayerHeight { layer: 4 })
    );
    let layers = vec![good, short];
    assert_eq!(
        check_layers(&layers, 1, 2),
        Err(MalformedAssetError::LayerHeight { layer: 1 })
    );
    assert_eq!(
        build_grid(&layers, 1, 2, &classes()).unwrap_err(),
        LoadError::MalformedAsset(MalformedAssetError::LayerHeight { layer: 1 })
    );
    assert_eq!(
        tile_records(&layers, 1, 2, &classes()).unwrap_err(),
        MalformedAssetError::LayerHeight { layer: 1 }
    );
}

#[test]
fn a_row_of_the_wrong_width_is_rejected() {
    let ragged = Layer { rows: vec![vec![1, 1], vec![1], vec![1, 1, 1]] };
    assert_eq!(
        check_layer(&ragged, 0, 2, 3),
        Err(MalformedAssetError::RowWidth { layer: 0, row: 1 })
    );
    let layers = vec![layer(&[&[None, None], &[None, None], &[None, None]]), ragged];
    assert_eq!(
        check_layers(&layers, 2, 3),
        Err(MalformedAssetError::RowWidth { layer: 1, row: 1 })
    );
    assert_eq!(
        build_grid(&layers, 2, 3, &classes()).unwrap_err(),
        LoadError::MalformedAsset(MalformedAssetError::RowWidth { layer: 1, row: 1 })
    );
    assert_eq!(check_layers(&Vec::new(), 2, 3), Ok(()));
}

#[test]
fn the_shape_is_checked_before_the_roles() {
    // No cell shows the starting point, and the layer is too wide.
    let layers = vec![layer(&[&[Some(END), None, None]])];
    assert_eq!(
        build_grid(&layers, 2, 1, &classes()).unwrap_err(),
        LoadError::MalformedAsset(MalformedAssetError::RowWidth { layer: 0, row: 0 })
    );
}

#[test]
fn every_tile_shown_gets_a_record() {
    let layers = vec![
        layer(&[&[Some(GRASS), Some(END)], &[Some(START), None]]),
        layer(&[&[Some(BUILD), None], &[None, Some(ROAD_UP)]]),
    ];
    let records = tile_records(&layers, 2, 2, &classes()).unwrap();
    let record = |x: usize, y: usize, tile_id: u32, build_point: bool| TileRecord {
        coord: Coord::new(x, y),
        tile_id,
        build_point,
    };
    assert_eq!(
        records,
        vec![
            record(0, 0, START, false),
            record(0, 1, GRASS, false),
            record(1, 1, END, false),
            record(1, 0, ROAD_UP, false),
            record(0, 1, BUILD, true),
        ]
    );
    assert_eq!(tile_records(&Vec::new(), 2, 2, &classes()), Ok(vec![]));
}
