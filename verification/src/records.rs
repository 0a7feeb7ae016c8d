//! What there is to draw: one record for each tile that a layer shows.
//!
//! The records come layer by layer from the bottom layer up, each layer row
//! by row from the bottom row up, each row from left to right.

use vstd::prelude::*;
use crate::classify::{Classification, Roles};
use crate::coord::Coord;
use crate::error::MalformedAssetError;
use crate::layers::{all_fit, check_layers, fits, reference, reports_misfit, tile_at, Layer};

verus! {

/// A tile to draw: where it lies, which tile it is, and whether a tower may
/// be built on it.
#[derive(Clone, Copy, Debug, PartialEq, Eq, Structural)]
pub struct TileRecord {
    pub coord: Coord,
    pub tile_id: u32,
    pub build_point: bool,
}

/// The record of the tile `id` at cell `c`.
pub open spec fn record_of(roles: Roles, c: Coord, id: u32) -> TileRecord {
    TileRecord { coord: c, tile_id: id, build_point: roles.construction_points.contains(id) }
}

/// The records of the first `upto` cells of row `y` of `layer`.
pub open spec fn row_records(
    layer: Layer,
    roles: Roles,
    height: usize,
    y: usize,
    upto: nat,
) -> Seq<TileRecord>
    decreases upto,
{
    if upto == 0 {
        Seq::empty()
    } else {
        let before = row_records(layer, roles, height, y, (upto - 1) as nat);
        let c = Coord { x: (upto - 1) as usize, y };
        match tile_at(layer, height, c) {
            Some(id) => before.push(record_of(roles, c, id)),
            None => before,
        }
    }
}

/// The records of the first `rows` rows of `layer`, counted from the bottom.
pub open spec fn layer_records(
    layer: Layer,
    roles: Roles,
    width: usize,
    height: usize,
    rows: nat,
) -> Seq<TileRecord>
    decreases rows,
{
    if rows == 0 {
        Seq::empty()
    } else {
        layer_records(layer, roles, width, height, (rows - 1) as nat) + row_records(
            layer,
            roles,
            height,
            (rows - 1) as usize,
            width as nat,
        )
    }
}

/// The records of all of `layers`.
pub open spec fn map_records(
    layers: Seq<Layer>,
    roles: Roles,
    width: usize,
    height: usize,
) -> Seq<TileRecord>
    decreases layers.len(),
{
    if layers.len() == 0 {
        Seq::empty()
    } else {
        map_records(layers.drop_last(), roles, width, height) + layer_records(
            layers.last(),
            roles,
            width,
            height,
            height as nat,
        )
    }
}

/// Adds the records of `layer` to `records`.
fn push_layer_records(
    layer: &Layer,
    classes: &Classification,
    width: usize,
    height: usize,
    records: &mut Vec<TileRecord>,
)
    requires
        fits(*layer, width, height),
    ensures
        final(records)@ == old(records)@ + layer_records(
            *layer,
            classes@,
            width,
            height,
            height as nat,
        ),
{
    let ghost before = records@;
    let mut y: usize = 0;
    assert(records@ =~= before + Seq::<TileRecord>::empty());
    while y < height
        invariant
            y <= height,
            fits(*layer, width, height),
            records@ == before + layer_records(*layer, classes@, width, height, y as nat),
        decreases height - y,
    {
        let ghost row_start = records@;
        let mut x: usize = 0;
        assert(records@ =~= row_start + Seq::<TileRecord>::empty());
        while x < width
            invariant
                y < height,
                x <= width,
                fits(*layer, width, height),
                records@ == row_start + row_records(*layer, classes@, height, y, x as nat),
            decreases width - x,
        {
            let c = Coord::new(x, y);
            let gid: u32 = reference(layer, width, height, c);
            if gid != 0 {
                let id: u32 = gid - 1;
                let record = TileRecord {
                    coord: c,
                    tile_id: id,
                    build_point: classes.is_build_point(id),
                };
                records.push(record);
                assert(records@ =~= row_start + row_records(
                    *layer,
                    classes@,
                    height,
                    y,
                    x as nat,
                ).push(record));
            }
            x = x + 1;
        }
        assert(records@ =~= before + (layer_records(*layer, classes@, width, height, y as nat)
            + row_records(*layer, classes@, height, y, width as nat)));
        y = y + 1;
    }
}

/// Lists the tiles that the layers of a map show, for drawing.
///
/// Fails if a layer does not have the shape of the map.
pub fn tile_records(layers: &Vec<Layer>, width: usize, height: usize, classes: &Classification) -> (res:
    Result<Vec<TileRecord>, MalformedAssetError>)
    ensures
        match res {
            Ok(records) => all_fit(layers@, width, height) && records@ == map_records(
                layers@,
                classes@,
                width,
                height,
            ),
            Err(defect) => reports_misfit(layers@, width, height, defect),
        },
{
    match check_layers(layers, width, height) {
        Ok(_) => {},
        Err(defect) => {
            return Err(defect);
        },
    }
    let mut records: Vec<TileRecord> = Vec::new();
    let mut k: usize = 0;
    assert(layers@.take(0) =~= Seq::<Layer>::empty());
    while k < layers.len()
        invariant
            k <= layers@.len(),
            all_fit(layers@, width, height),
            records@ == map_records(layers@.take(k as int), classes@, width, height),
        decreases layers@.len() - k,
    {
        assert(layers@.take(k + 1).drop_last() =~= layers@.take(k as int));
        assert(layers@.take(k + 1).last() == layers@[k as int]);
        push_layer_records(&layers[k], classes, width, height, &mut records);
        k = k + 1;
    }
    assert(layers@.take(k as int) =~= layers@);
    Ok(records)
}

} // verus!
