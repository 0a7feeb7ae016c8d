//! Each tile of a well-formed tileset has one role at most.

use vstd::prelude::*;
use crate::classify::{
    class_of,
    construction_points_of,
    last_of_class,
    road_masks_of,
    TileClass,
    TileDef,
};

verus! {

/// Whether no two of `tiles` share a number.
pub open spec fn distinct_ids(tiles: Seq<TileDef>) -> bool {
    forall|i: int, j: int| 0 <= i < j < tiles.len() ==> tiles[i].id != tiles[j].id
}

/// The number of roles under which the tile number `id` is filed.
pub open spec fn filed_under(tiles: Seq<TileDef>, id: u32) -> nat {
    (if road_masks_of(tiles).contains_key(id) { 1nat } else { 0 }) + (if construction_points_of(
        tiles,
    ).contains(id) { 1nat } else { 0 }) + (if last_of_class(tiles, TileClass::StartPoint) == Some(
        id,
    ) { 1nat } else { 0 }) + (if last_of_class(tiles, TileClass::EndPoint) == Some(id) {
        1nat
    } else {
        0
    })
}

/// A number that is filed as a road belongs to a road tile, and is filed
/// with the mask of the last such tile: the result is that tile's place.
pub proof fn lemma_road_has_tile(tiles: Seq<TileDef>, id: u32) -> (i: int)
    requires
        road_masks_of(tiles).contains_key(id),
    ensures
        0 <= i < tiles.len(),
        tiles[i].id == id,
        class_of(tiles[i].properties@) == TileClass::Road(road_masks_of(tiles)[id]),
    decreases tiles.len(),
{
    let last = tiles.last();
    if last.id == id && class_of(last.properties@) is Road {
        tiles.len() - 1
    } else {
        lemma_road_has_tile(tiles.drop_last(), id)
    }
}

/// A number that is filed as a construction point belongs to a tile that is
/// one: the result is that tile's place.
pub proof fn lemma_construction_point_has_tile(tiles: Seq<TileDef>, id: u32) -> (i: int)
    requires
        construction_points_of(tiles).contains(id),
    ensures
        0 <= i < tiles.len(),
        tiles[i].id == id,
        class_of(tiles[i].properties@) == TileClass::ConstructionPoint,
    decreases tiles.len(),
{
    let last = tiles.last();
    if last.id == id && class_of(last.properties@) == TileClass::ConstructionPoint {
        tiles.len() - 1
    } else {
        lemma_construction_point_has_tile(tiles.drop_last(), id)
    }
}

/// The number found for a role belongs to a tile of that role, and no later
/// tile has the role: the result is that tile's place.
pub proof fn lemma_last_of_class_has_tile(tiles: Seq<TileDef>, class: TileClass, id: u32) -> (i:
    int)
    requires
        last_of_class(tiles, class) == Some(id),
    ensures
        0 <= i < tiles.len(),
        tiles[i].id == id,
        class_of(tiles[i].properties@) == class,
        forall|j: int| i < j < tiles.len() ==> class_of(#[trigger] tiles[j].properties@) != class,
    decreases tiles.len(),
{
    if class_of(tiles.last().properties@) == class {
        tiles.len() - 1
    } else {
        let rest = tiles.drop_last();
        let i = lemma_last_of_class_has_tile(rest, class, id);
        assert forall|j: int| i < j < tiles.len() implies class_of(
            #[trigger] tiles[j].properties@,
        ) != class by {
            if j < rest.len() {
                assert(rest[j] == tiles[j]);
            }
        }
        i
    }
}

/// No number is found for a role exactly when no tile has the role.
pub proof fn lemma_no_tile_of_class(tiles: Seq<TileDef>, class: TileClass)
    ensures
        last_of_class(tiles, class) is None <==> forall|j: int|
            0 <= j < tiles.len() ==> class_of(#[trigger] tiles[j].properties@) != class,
    decreases tiles.len(),
{
    if tiles.len() > 0 {
        lemma_no_tile_of_class(tiles.drop_last(), class);
        if class_of(tiles.last().properties@) != class {
            if last_of_class(tiles, class) is None {
                assert forall|j: int| 0 <= j < tiles.len() implies class_of(
                    #[trigger] tiles[j].properties@,
                ) != class by {
                    if j < tiles.len() - 1 {
                        assert(tiles.drop_last()[j] == tiles[j]);
                    }
                }
            } else {
                let id = last_of_class(tiles, class).unwrap();
                let i = lemma_last_of_class_has_tile(tiles, class, id);
            }
        }
    }
}

/// In a tileset whose tiles have different numbers, every tile is filed
/// under its own role: a road under its number with its mask, a
/// construction point under its number, and under no role that it does not
/// have.
pub proof fn lemma_tile_filed_by_class(tiles: Seq<TileDef>, i: int)
    requires
        distinct_ids(tiles),
        0 <= i < tiles.len(),
    ensures
        match class_of(tiles[i].properties@) {
            TileClass::Road(mask) => road_masks_of(tiles).contains_key(tiles[i].id)
                && road_masks_of(tiles)[tiles[i].id] == mask,
            _ => !road_masks_of(tiles).contains_key(tiles[i].id),
        },
        construction_points_of(tiles).contains(tiles[i].id) <==> class_of(tiles[i].properties@)
            == TileClass::ConstructionPoint,
        last_of_class(tiles, TileClass::StartPoint) == Some(tiles[i].id) ==> class_of(
            tiles[i].properties@,
        ) == TileClass::StartPoint,
        last_of_class(tiles, TileClass::EndPoint) == Some(tiles[i].id) ==> class_of(
            tiles[i].properties@,
        ) == TileClass::EndPoint,
    decreases tiles.len(),
{
    let id = tiles[i].id;
    let rest = tiles.drop_last();
    if road_masks_of(tiles).contains_key(id) {
        let k = lemma_road_has_tile(tiles, id);
        assert(k == i);
    }
    if construction_points_of(tiles).contains(id) {
        let k = lemma_construction_point_has_tile(tiles, id);
        assert(k == i);
    }
    if last_of_class(tiles, TileClass::StartPoint) == Some(id) {
        let k = lemma_last_of_class_has_tile(tiles, TileClass::StartPoint, id);
        assert(k == i);
    }
    if last_of_class(tiles, TileClass::EndPoint) == Some(id) {
        let k = lemma_last_of_class_has_tile(tiles, TileClass::EndPoint, id);
        assert(k == i);
    }
    if i < tiles.len() - 1 {
        assert(distinct_ids(rest)) by {
            assert forall|a: int, b: int| 0 <= a < b < rest.len() implies rest[a].id
                != rest[b].id by {
                assert(rest[a] == tiles[a] && rest[b] == tiles[b]);
            }
        }
        assert(rest[i] == tiles[i]);
        lemma_tile_filed_by_class(rest, i);
        assert(tiles.last().id != id);
    }
}

/// In a tileset whose tiles have different numbers, no number is filed under
/// two roles.
pub proof fn lemma_roles_partition(tiles: Seq<TileDef>, id: u32)
    requires
        distinct_ids(tiles),
    ensures
        filed_under(tiles, id) <= 1,
{
    if road_masks_of(tiles).contains_key(id) {
        let i = lemma_road_has_tile(tiles, id);
        lemma_tile_filed_by_class(tiles, i);
    }
    if construction_points_of(tiles).contains(id) {
        let i = lemma_construction_point_has_tile(tiles, id);
        lemma_tile_filed_by_class(tiles, i);
    }
    if last_of_class(tiles, TileClass::StartPoint) == Some(id) {
        let i = lemma_last_of_class_has_tile(tiles, TileClass::StartPoint, id);
        lemma_tile_filed_by_class(tiles, i);
    }
    if last_of_class(tiles, TileClass::EndPoint) == Some(id) {
        let i = lemma_last_of_class_has_tile(tiles, TileClass::EndPoint, id);
        lemma_tile_filed_by_class(tiles, i);
    }
}

} // verus!
