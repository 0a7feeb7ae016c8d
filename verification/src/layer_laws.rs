//! Which layer decides a cell, and what the cell then is.

use vstd::prelude::*;
use vstd::seq_lib::lemma_seq_concat_contains_all_elements;
use crate::classify::Roles;
use crate::coord::{Coord, DirectionMask};
use crate::layers::{decided_mask, deciding_tile, marks, tile_at, Layer};
use crate::records::{layer_records, map_records, record_of, row_records, TileRecord};
use crate::terrain::shows;

verus! {

/// Whether layer `k` is the topmost of `layers` whose tile gives cell `c` a
/// mask.
pub open spec fn topmost_marking(
    layers: Seq<Layer>,
    roles: Roles,
    height: usize,
    c: Coord,
    k: int,
) -> bool {
    &&& 0 <= k < layers.len()
    &&& marks(roles, layers[k], height, c) is Some
    &&& forall|j: int| k < j < layers.len() ==> marks(roles, #[trigger] layers[j], height, c) is None
}

/// Layer precedence: the topmost layer whose tile gives a cell a mask
/// decides the cell, whatever the layers below it hold there.
pub proof fn lemma_topmost_layer_decides(
    layers: Seq<Layer>,
    roles: Roles,
    height: usize,
    c: Coord,
    k: int,
)
    requires
        topmost_marking(layers, roles, height, c, k),
    ensures
        deciding_tile(layers, roles, height, c) == tile_at(layers[k], height, c),
        Some(decided_mask(layers, roles, height, c)) == marks(roles, layers[k], height, c),
    decreases layers.len(),
{
    if k < layers.len() - 1 {
        let below = layers.drop_last();
        assert(below[k] == layers[k]);
        assert forall|j: int| k < j < below.len() implies marks(
            roles,
            #[trigger] below[j],
            height,
            c,
        ) is None by {
            assert(below[j] == layers[j]);
        }
        lemma_topmost_layer_decides(below, roles, height, c, k);
    }
}

/// A cell to which no layer gives a mask is decided by no tile and stays
/// impassable.
pub proof fn lemma_unmarked_cell_blocked(
    layers: Seq<Layer>,
    roles: Roles,
    height: usize,
    c: Coord,
)
    requires
        forall|j: int| 0 <= j < layers.len() ==> marks(roles, #[trigger] layers[j], height, c) is None,
    ensures
        deciding_tile(layers, roles, height, c) is None,
        decided_mask(layers, roles, height, c) == DirectionMask::blocked(),
    decreases layers.len(),
{
    if layers.len() > 0 {
        let below = layers.drop_last();
        assert forall|j: int| 0 <= j < below.len() implies marks(
            roles,
            #[trigger] below[j],
            height,
            c,
        ) is None by {
            assert(below[j] == layers[j]);
        }
        lemma_unmarked_cell_blocked(below, roles, height, c);
    }
}

/// A cell that a tile decides has a topmost layer that gives it a mask: the
/// result is that layer's place.
pub proof fn lemma_decided_cell_has_layer(
    layers: Seq<Layer>,
    roles: Roles,
    height: usize,
    c: Coord,
) -> (k: int)
    requires
        deciding_tile(layers, roles, height, c) is Some,
    ensures
        topmost_marking(layers, roles, height, c, k),
    decreases layers.len(),
{
    if marks(roles, layers.last(), height, c) is Some {
        layers.len() - 1
    } else {
        let below = layers.drop_last();
        let k = lemma_decided_cell_has_layer(below, roles, height, c);
        assert(below[k] == layers[k]);
        assert forall|j: int| k < j < layers.len() implies marks(
            roles,
            #[trigger] layers[j],
            height,
            c,
        ) is None by {
            if j < below.len() {
                assert(below[j] == layers[j]);
            }
        }
        k
    }
}

/// A cell that shows the starting point or the end point allows every
/// direction, whatever mask the tile has as a road.
pub proof fn lemma_start_and_end_cells_open(
    layers: Seq<Layer>,
    roles: Roles,
    height: usize,
    c: Coord,
)
    requires
        shows(layers, roles, height, c, roles.start_tile) || shows(
            layers,
            roles,
            height,
            c,
            roles.end_tile,
        ),
    ensures
        decided_mask(layers, roles, height, c) == DirectionMask::open(),
{
}

/// What a row's records hold: a record for each tile among the first `upto`
/// cells of the row, and nothing else.
pub proof fn lemma_row_records_hold(
    layer: Layer,
    roles: Roles,
    height: usize,
    y: usize,
    upto: nat,
    record: TileRecord,
)
    requires
        upto <= usize::MAX,
    ensures
        row_records(layer, roles, height, y, upto).contains(record) <==> {
            &&& record.coord.y == y
            &&& record.coord.x < upto
            &&& tile_at(layer, height, record.coord) == Some(record.tile_id)
            &&& record == record_of(roles, record.coord, record.tile_id)
        },
    decreases upto,
{
    if upto > 0 {
        let before = row_records(layer, roles, height, y, (upto - 1) as nat);
        let c = Coord { x: (upto - 1) as usize, y };
        lemma_row_records_hold(layer, roles, height, y, (upto - 1) as nat, record);
        match tile_at(layer, height, c) {
            Some(id) => {
                let added = record_of(roles, c, id);
                assert(before.push(added).last() == added);
                assert forall|i: int| 0 <= i < before.len() implies before.push(added)[i]
                    == before[i] by {}
                if before.push(added).contains(record) {
                    let i = choose|i: int|
                        0 <= i < before.push(added).len() && before.push(added)[i] == record;
                    if i < before.len() {
                        assert(before[i] == record);
                    }
                }
                if before.contains(record) {
                    let i = choose|i: int| 0 <= i < before.len() && before[i] == record;
                    assert(before.push(added)[i] == record);
                }
                if record == added {
                    assert(before.push(added)[before.len() as int] == record);
                }
            },
            None => {},
        }
    }
}

/// Whether `record` tells of a tile that `layer` shows on a map of the given
/// size.
pub open spec fn drawn_by(
    layer: Layer,
    roles: Roles,
    width: usize,
    height: usize,
    record: TileRecord,
) -> bool {
    &&& record.coord.x < width
    &&& record.coord.y < height
    &&& tile_at(layer, height, record.coord) == Some(record.tile_id)
    &&& record == record_of(roles, record.coord, record.tile_id)
}

/// What a layer's records hold: a record for each tile in the first `rows`
/// rows of the layer, and nothing else.
pub proof fn lemma_layer_records_hold(
    layer: Layer,
    roles: Roles,
    width: usize,
    height: usize,
    rows: nat,
    record: TileRecord,
)
    requires
        rows <= height,
    ensures
        layer_records(layer, roles, width, height, rows).contains(record) <==> record.coord.y
            < rows && drawn_by(layer, roles, width, height, record),
    decreases rows,
{
    if rows > 0 {
        let below = layer_records(layer, roles, width, height, (rows - 1) as nat);
        let row = row_records(layer, roles, height, (rows - 1) as usize, width as nat);
        lemma_layer_records_hold(layer, roles, width, height, (rows - 1) as nat, record);
        lemma_row_records_hold(layer, roles, height, (rows - 1) as usize, width as nat, record);
        lemma_seq_concat_contains_all_elements(below, row, record);
    }
}

/// What the records of a map hold: a record for each tile that one of its
/// layers shows, and nothing else.
pub proof fn lemma_map_records_hold(
    layers: Seq<Layer>,
    roles: Roles,
    width: usize,
    height: usize,
    record: TileRecord,
)
    ensures
        map_records(layers, roles, width, height).contains(record) <==> exists|k: int|
            0 <= k < layers.len() && drawn_by(#[trigger] layers[k], roles, width, height, record),
    decreases layers.len(),
{
    if layers.len() > 0 {
        let below = layers.drop_last();
        let top = layer_records(layers.last(), roles, width, height, height as nat);
        lemma_map_records_hold(below, roles, width, height, record);
        lemma_layer_records_hold(layers.last(), roles, width, height, height as nat, record);
        lemma_seq_concat_contains_all_elements(
            map_records(below, roles, width, height),
            top,
            record,
        );
        if map_records(layers, roles, width, height).contains(record) {
            if top.contains(record) {
                assert(drawn_by(layers[layers.len() - 1], roles, width, height, record));
            } else {
                let k = choose|k: int|
                    0 <= k < below.len() && drawn_by(
                        #[trigger] below[k],
                        roles,
                        width,
                        height,
                        record,
                    );
                assert(below[k] == layers[k]);
            }
        }
        if exists|k: int|
            0 <= k < layers.len() && drawn_by(#[trigger] layers[k], roles, width, height, record) {
            let k = choose|k: int|
                0 <= k < layers.len() && drawn_by(
                    #[trigger] layers[k],
                    roles,
                    width,
                    height,
                    record,
                );
            if k < below.len() {
                assert(below[k] == layers[k]);
            }
        }
    }
}

} // verus!
