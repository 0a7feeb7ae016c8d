//! The layers of a map and what they show at each cell.
//!
//! A layer holds rows of tile references, the top row first, so the bottom
//! row of the map is row `0` of the grid. A reference of `0` stands for no
//! tile; any other reference is a tile's number plus one.
//!
//! Layers lie on top of each other, the first at the bottom. At each cell
//! the topmost layer with a road, the starting point or the end point
//! decides the cell; the layers below it have no say, and tiles of any other
//! kind are looked through.

use vstd::prelude::*;
use crate::classify::{Classification, Roles};
use crate::coord::{Coord, DirectionMask};
use crate::error::MalformedAssetError;

verus! {

/// One layer of a map.
#[derive(Clone, Debug)]
pub struct Layer {
    pub rows: Vec<Vec<u32>>,
}

/// Whether `layer` has the shape of a map of the given size.
pub open spec fn fits(layer: Layer, width: usize, height: usize) -> bool {
    &&& layer.rows@.len() == height
    &&& forall|r: int| 0 <= r < height ==> (#[trigger] layer.rows@[r])@.len() == width
}

/// Whether every one of `layers` has the shape of a map of the given size.
pub open spec fn all_fit(layers: Seq<Layer>, width: usize, height: usize) -> bool {
    forall|k: int| 0 <= k < layers.len() ==> fits(#[trigger] layers[k], width, height)
}

/// The tile reference of `layer` at cell `c` of a map of the given height.
pub open spec fn reference_at(layer: Layer, height: usize, c: Coord) -> u32 {
    layer.rows@[height - 1 - c.y]@[c.x as int]
}

/// The number of the tile of `layer` at cell `c`, if there is a tile.
pub open spec fn tile_at(layer: Layer, height: usize, c: Coord) -> Option<u32> {
    let reference = reference_at(layer, height, c);
    if reference == 0 {
        None
    } else {
        Some((reference - 1) as u32)
    }
}

/// The mask that `layer` gives cell `c`, if its tile there gives one.
pub open spec fn marks(roles: Roles, layer: Layer, height: usize, c: Coord) -> Option<
    DirectionMask,
> {
    match tile_at(layer, height, c) {
        Some(id) => roles.cell_mask(id),
        None => None,
    }
}

/// The number of the tile that decides cell `c`: that of the topmost layer
/// whose tile gives the cell a mask.
pub open spec fn deciding_tile(
    layers: Seq<Layer>,
    roles: Roles,
    height: usize,
    c: Coord,
) -> Option<u32>
    decreases layers.len(),
{
    if layers.len() == 0 {
        None
    } else if marks(roles, layers.last(), height, c) is Some {
        tile_at(layers.last(), height, c)
    } else {
        deciding_tile(layers.drop_last(), roles, height, c)
    }
}

/// The mask of cell `c`: the one that its deciding tile gives it, and none
/// where no tile decides.
pub open spec fn decided_mask(
    layers: Seq<Layer>,
    roles: Roles,
    height: usize,
    c: Coord,
) -> DirectionMask {
    match deciding_tile(layers, roles, height, c) {
        Some(id) => match roles.cell_mask(id) {
            Some(mask) => mask,
            None => DirectionMask::blocked(),
        },
        None => DirectionMask::blocked(),
    }
}

/// Whether layer `k` is the first of `layers` that does not have the shape
/// of a map of the given size.
pub open spec fn first_misfit(layers: Seq<Layer>, width: usize, height: usize, k: int) -> bool {
    &&& 0 <= k < layers.len()
    &&& !fits(layers[k], width, height)
    &&& all_fit(layers.take(k), width, height)
}

/// Whether row `r` is the first row of `layer` that is not `width` tiles
/// wide.
pub open spec fn first_bad_row(layer: Layer, width: usize, r: int) -> bool {
    &&& 0 <= r < layer.rows@.len()
    &&& layer.rows@[r]@.len() != width
    &&& forall|q: int| 0 <= q < r ==> (#[trigger] layer.rows@[q])@.len() == width
}

/// Whether `defect` names what is wrong with the first of `layers` that does
/// not have the shape of a map of the given size: its number of rows or,
/// where that is right, its first row of the wrong width.
pub open spec fn reports_misfit(
    layers: Seq<Layer>,
    width: usize,
    height: usize,
    defect: MalformedAssetError,
) -> bool {
    match defect {
        MalformedAssetError::LayerHeight { layer } => first_misfit(
            layers,
            width,
            height,
            layer as int,
        ) && layers[layer as int].rows@.len() != height,
        MalformedAssetError::RowWidth { layer, row } => first_misfit(
            layers,
            width,
            height,
            layer as int,
        ) && layers[layer as int].rows@.len() == height && first_bad_row(
            layers[layer as int],
            width,
            row as int,
        ),
    }
}

/// Checks that `layer` has the shape of a map of the given size, and says
/// what is wrong with it if it has not: its number of rows or, where that is
/// right, its first row of the wrong width.
pub fn check_layer(layer: &Layer, index: usize, width: usize, height: usize) -> (res: Result<
    (),
    MalformedAssetError,
>)
    ensures
        match res {
            Ok(_) => fits(*layer, width, height),
            Err(MalformedAssetError::LayerHeight { layer: at }) => at == index && layer.rows@.len()
                != height,
            Err(MalformedAssetError::RowWidth { layer: at, row }) => at == index
                && layer.rows@.len() == height && first_bad_row(*layer, width, row as int),
        },
{
    if layer.rows.len() != height {
        return Err(MalformedAssetError::LayerHeight { layer: index });
    }
    let mut r: usize = 0;
    while r < height
        invariant
            r <= height,
            layer.rows@.len() == height,
            forall|q: int| 0 <= q < r ==> (#[trigger] layer.rows@[q])@.len() == width,
        decreases height - r,
    {
        if layer.rows[r].len() != width {
            return Err(MalformedAssetError::RowWidth { layer: index, row: r });
        }
        r = r + 1;
    }
    Ok(())
}

/// Checks that every one of `layers` has the shape of a map of the given
/// size, and says what is wrong with the first that has not.
pub fn check_layers(layers: &Vec<Layer>, width: usize, height: usize) -> (res: Result<
    (),
    MalformedAssetError,
>)
    ensures
        match res {
            Ok(_) => all_fit(layers@, width, height),
            Err(defect) => reports_misfit(layers@, width, height, defect),
        },
{
    let mut k: usize = 0;
    while k < layers.len()
        invariant
            k <= layers@.len(),
            all_fit(layers@.take(k as int), width, height),
        decreases layers@.len() - k,
    {
        match check_layer(&layers[k], k, width, height) {
            Ok(_) => {},
            Err(e) => {
                return Err(e);
            },
        }
        assert(all_fit(layers@.take(k + 1), width, height)) by {
            assert forall|j: int| 0 <= j < k + 1 implies fits(
                #[trigger] layers@.take(k + 1)[j],
                width,
                height,
            ) by {
                if j < k {
                    assert(layers@.take(k as int)[j] == layers@[j]);
                }
            }
        }
        k = k + 1;
    }
    assert(layers@.take(k as int) =~= layers@);
    Ok(())
}

/// The tile reference of `layer` at cell `c` of a map of the given size.
pub fn reference(layer: &Layer, width: usize, height: usize, c: Coord) -> (gid: u32)
    requires
        fits(*layer, width, height),
        c.x < width,
        c.y < height,
    ensures
        gid == reference_at(*layer, height, c),
{
    layer.rows[height - 1 - c.y][c.x]
}

/// The number of the tile that decides cell `c`, if any tile does.
pub fn deciding_tile_at(
    layers: &Vec<Layer>,
    classes: &Classification,
    width: usize,
    height: usize,
    c: Coord,
) -> (tile: Option<u32>)
    requires
        all_fit(layers@, width, height),
        c.x < width,
        c.y < height,
    ensures
        tile == deciding_tile(layers@, classes@, height, c),
        tile matches Some(id) ==> classes@.cell_mask(id) is Some,
{
    let mut k: usize = layers.len();
    assert(layers@.take(k as int) =~= layers@);
    while k > 0
        invariant
            k <= layers@.len(),
            all_fit(layers@, width, height),
            c.x < width,
            c.y < height,
            deciding_tile(layers@, classes@, height, c) == deciding_tile(
                layers@.take(k as int),
                classes@,
                height,
                c,
            ),
        decreases k,
    {
        let ghost below = layers@.take(k as int);
        assert(below.drop_last() =~= layers@.take(k - 1));
        assert(below.last() == layers@[k - 1]);
        k = k - 1;
        let gid: u32 = reference(&layers[k], width, height, c);
        if gid != 0 {
            let id: u32 = gid - 1;
            if classes.mask_for(id).is_some() {
                return Some(id);
            }
        }
    }
    None
}

} // verus!
