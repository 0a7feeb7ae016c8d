//! Sorting the tiles of a tileset by the role that their properties give
//! them.
//!
//! A tile is a road, a construction point, the starting point or the end
//! point if it has the property of that name, whatever the property's value.
//! Where a tile has several of them, the first in that order decides what
//! `classify_tile` says, and `classify_tileset` rejects the tileset.

use vstd::prelude::*;
use std::collections::{HashMap, HashSet};
use crate::coord::DirectionMask;
use crate::error::ConfigurationError;
use crate::props::{flag_set, Properties, PropertyValue};

verus! {

/// A tile of a tileset: its number and its custom properties.
#[derive(Clone, Debug)]
pub struct TileDef {
    pub id: u32,
    pub properties: Properties,
}

/// The role of a tile.
#[derive(Clone, Copy, Debug, PartialEq, Eq, Structural)]
pub enum TileClass {
    /// A tile that runners walk on, with the directions in which they may
    /// leave it.
    Road(DirectionMask),
    /// A tile on which a tower may be built.
    ConstructionPoint,
    /// The tile on which runners start.
    StartPoint,
    /// The tile that runners try to reach.
    EndPoint,
    /// A tile without a role.
    Other,
}

/// The mask of a road tile: a direction is allowed where the property of its
/// name holds the boolean `true`.
pub open spec fn road_mask(props: Map<Seq<char>, PropertyValue>) -> DirectionMask {
    DirectionMask {
        up: flag_set(props, "up"@),
        right: flag_set(props, "right"@),
        down: flag_set(props, "down"@),
        left: flag_set(props, "left"@),
    }
}

/// The role that a tile's properties give it.
pub open spec fn class_of(props: Map<Seq<char>, PropertyValue>) -> TileClass {
    if props.contains_key("road"@) {
        TileClass::Road(road_mask(props))
    } else if props.contains_key("construction-point"@) {
        TileClass::ConstructionPoint
    } else if props.contains_key("start-point"@) {
        TileClass::StartPoint
    } else if props.contains_key("end-point"@) {
        TileClass::EndPoint
    } else {
        TileClass::Other
    }
}

/// The number of roles that a tile's properties name.
pub open spec fn role_count(props: Map<Seq<char>, PropertyValue>) -> nat {
    (if props.contains_key("road"@) { 1nat } else { 0 }) + (if props.contains_key(
        "construction-point"@,
    ) { 1nat } else { 0 }) + (if props.contains_key("start-point"@) { 1nat } else { 0 }) + (
    if props.contains_key("end-point"@) { 1nat } else { 0 })
}

/// The mask of a road tile with the properties `props`.
pub fn road_mask_of(props: &Properties) -> (mask: DirectionMask)
    ensures
        mask == road_mask(props@),
{
    DirectionMask::from_flags(
        props.is_set("up"),
        props.is_set("right"),
        props.is_set("down"),
        props.is_set("left"),
    )
}

/// The role of a tile with the properties `props`.
pub fn classify_tile(props: &Properties) -> (class: TileClass)
    ensures
        class == class_of(props@),
{
    if props.contains_key("road") {
        TileClass::Road(road_mask_of(props))
    } else if props.contains_key("construction-point") {
        TileClass::ConstructionPoint
    } else if props.contains_key("start-point") {
        TileClass::StartPoint
    } else if props.contains_key("end-point") {
        TileClass::EndPoint
    } else {
        TileClass::Other
    }
}

/// Whether the properties `props` name more than one role.
pub fn has_conflicting_roles(props: &Properties) -> (b: bool)
    ensures
        b == (role_count(props@) > 1),
{
    let mut count: u8 = 0;
    if props.contains_key("road") {
        count = count + 1;
    }
    if props.contains_key("construction-point") {
        count = count + 1;
    }
    if props.contains_key("start-point") {
        count = count + 1;
    }
    if props.contains_key("end-point") {
        count = count + 1;
    }
    count > 1
}

/// What a tileset says of its tiles: which are roads, and with what masks;
/// which are construction points; which is the starting point and which the
/// end point.
#[derive(Debug)]
pub struct Classification {
    pub road_masks: HashMap<u32, DirectionMask>,
    pub construction_points: HashSet<u32>,
    pub start_tile: u32,
    pub end_tile: u32,
}

/// What a tileset says of its tiles, as plain mathematics.
pub struct Roles {
    /// The masks of the road tiles, by tile number.
    pub road_masks: Map<u32, DirectionMask>,
    /// The numbers of the construction points.
    pub construction_points: Set<u32>,
    /// The number of the starting point.
    pub start_tile: u32,
    /// The number of the end point.
    pub end_tile: u32,
}

impl Roles {
    /// The mask that a cell gets from the tile `id`: every direction for the
    /// starting point and the end point, its own mask for a road, and none
    /// for any other tile, which leaves a cell as it is.
    pub open spec fn cell_mask(self, id: u32) -> Option<DirectionMask> {
        if id == self.start_tile || id == self.end_tile {
            Some(DirectionMask::open())
        } else if self.road_masks.contains_key(id) {
            Some(self.road_masks[id])
        } else {
            None
        }
    }
}

impl View for Classification {
    type V = Roles;

    open spec fn view(&self) -> Roles {
        Roles {
            road_masks: self.road_masks@,
            construction_points: self.construction_points@,
            start_tile: self.start_tile,
            end_tile: self.end_tile,
        }
    }
}

impl Classification {
    /// The mask that a cell gets from the tile `id`, if it gets one.
    pub fn mask_for(&self, id: u32) -> (mask: Option<DirectionMask>)
        ensures
            mask == self@.cell_mask(id),
    {
        broadcast use vstd::std_specs::hash::group_hash_axioms;

        if id == self.start_tile || id == self.end_tile {
            Some(DirectionMask::full())
        } else {
            match self.road_masks.get(&id) {
                Some(mask) => Some(*mask),
                None => None,
            }
        }
    }

    /// Whether a tower may be built on the tile `id`.
    pub fn is_build_point(&self, id: u32) -> (b: bool)
        ensures
            b == self.construction_points@.contains(id),
    {
        broadcast use vstd::std_specs::hash::group_hash_axioms;

        self.construction_points.contains(&id)
    }
}

/// The masks of the road tiles among `tiles`, by tile number. Where two
/// tiles share a number, the later one counts.
pub open spec fn road_masks_of(tiles: Seq<TileDef>) -> Map<u32, DirectionMask>
    decreases tiles.len(),
{
    if tiles.len() == 0 {
        Map::empty()
    } else {
        match class_of(tiles.last().properties@) {
            TileClass::Road(mask) => road_masks_of(tiles.drop_last()).insert(tiles.last().id, mask),
            _ => road_masks_of(tiles.drop_last()),
        }
    }
}

/// The numbers of the construction points among `tiles`.
pub open spec fn construction_points_of(tiles: Seq<TileDef>) -> Set<u32>
    decreases tiles.len(),
{
    if tiles.len() == 0 {
        Set::empty()
    } else {
        match class_of(tiles.last().properties@) {
            TileClass::ConstructionPoint => construction_points_of(tiles.drop_last()).insert(
                tiles.last().id,
            ),
            _ => construction_points_of(tiles.drop_last()),
        }
    }
}

/// The number of the last tile among `tiles` that has the role `class`.
pub open spec fn last_of_class(tiles: Seq<TileDef>, class: TileClass) -> Option<u32>
    decreases tiles.len(),
{
    if tiles.len() == 0 {
        None
    } else if class_of(tiles.last().properties@) == class {
        Some(tiles.last().id)
    } else {
        last_of_class(tiles.drop_last(), class)
    }
}

/// Whether tile `i` is the first among `tiles` that names more than one
/// role.
pub open spec fn first_conflict_at(tiles: Seq<TileDef>, i: int) -> bool {
    &&& 0 <= i < tiles.len()
    &&& role_count(tiles[i].properties@) > 1
    &&& forall|j: int| 0 <= j < i ==> role_count(#[trigger] tiles[j].properties@) <= 1
}

/// Whether no tile among `tiles` names more than one role.
pub open spec fn conflict_free(tiles: Seq<TileDef>) -> bool {
    forall|j: int| 0 <= j < tiles.len() ==> role_count(#[trigger] tiles[j].properties@) <= 1
}

/// The place of the first tile among `tiles` that names more than one role.
pub open spec fn first_conflict(tiles: Seq<TileDef>) -> int {
    choose|i: int| first_conflict_at(tiles, i)
}

/// What a tileset says of its tiles, or why it is rejected: because one of
/// its tiles names more than one role (the first such tile is reported),
/// because none of them is the starting point, or, after that, because none
/// is the end point. Where several tiles are the starting point, or the end
/// point, the last one counts.
pub open spec fn roles_of(tiles: Seq<TileDef>) -> Result<Roles, ConfigurationError> {
    if !conflict_free(tiles) {
        Err(ConfigurationError::ConflictingRoles { tile: tiles[first_conflict(tiles)].id })
    } else {
        match last_of_class(tiles, TileClass::StartPoint) {
            None => Err(ConfigurationError::MissingStartTile),
            Some(start_tile) => match last_of_class(tiles, TileClass::EndPoint) {
                None => Err(ConfigurationError::MissingEndTile),
                Some(end_tile) => Ok(
                    Roles {
                        road_masks: road_masks_of(tiles),
                        construction_points: construction_points_of(tiles),
                        start_tile,
                        end_tile,
                    },
                ),
            },
        }
    }
}

/// Only one tile is the first to name more than one role.
pub proof fn lemma_first_conflict_unique(tiles: Seq<TileDef>, i: int)
    requires
        first_conflict_at(tiles, i),
    ensures
        !conflict_free(tiles),
        first_conflict(tiles) == i,
{
    let j = first_conflict(tiles);
    assert(first_conflict_at(tiles, j));
    if i < j {
        assert(role_count(tiles[i].properties@) <= 1);
    }
    if j < i {
        assert(role_count(tiles[j].properties@) <= 1);
    }
}

/// Sorts the tiles of a tileset by their roles, or rejects the tileset: see
/// `roles_of`.
pub fn classify_tileset(tiles: &Vec<TileDef>) -> (res: Result<Classification, ConfigurationError>)
    ensures
        match res {
            Ok(classes) => roles_of(tiles@) == Ok::<Roles, ConfigurationError>(classes@),
            Err(e) => roles_of(tiles@) == Err::<Roles, ConfigurationError>(e),
        },
{
    broadcast use vstd::std_specs::hash::group_hash_axioms;

    let mut road_masks: HashMap<u32, DirectionMask> = HashMap::new();
    let mut construction_points: HashSet<u32> = HashSet::new();
    let mut start_tile: Option<u32> = None;
    let mut end_tile: Option<u32> = None;
    let mut i: usize = 0;
    assert(tiles@.take(0) =~= Seq::<TileDef>::empty());
    while i < tiles.len()
        invariant
            i <= tiles@.len(),
            conflict_free(tiles@.take(i as int)),
            road_masks@ == road_masks_of(tiles@.take(i as int)),
            construction_points@ == construction_points_of(tiles@.take(i as int)),
            start_tile == last_of_class(tiles@.take(i as int), TileClass::StartPoint),
            end_tile == last_of_class(tiles@.take(i as int), TileClass::EndPoint),
        decreases tiles@.len() - i,
    {
        let tile = &tiles[i];
        let ghost seen = tiles@.take(i as int);
        let ghost next = tiles@.take(i + 1);
        assert(next.drop_last() =~= seen);
        assert(next.last() == tiles@[i as int]);
        if has_conflicting_roles(&tile.properties) {
            assert(first_conflict_at(tiles@, i as int)) by {
                assert forall|j: int| 0 <= j < i implies role_count(
                    #[trigger] tiles@[j].properties@,
                ) <= 1 by {
                    assert(seen[j] == tiles@[j]);
                }
            }
            proof {
                lemma_first_conflict_unique(tiles@, i as int);
            }
            return Err(ConfigurationError::ConflictingRoles { tile: tile.id });
        }
        match classify_tile(&tile.properties) {
            TileClass::Road(mask) => {
                road_masks.insert(tile.id, mask);
            },
            TileClass::ConstructionPoint => {
                construction_points.insert(tile.id);
            },
            TileClass::StartPoint => {
                start_tile = Some(tile.id);
            },
            TileClass::EndPoint => {
                end_tile = Some(tile.id);
            },
            TileClass::Other => {},
        }
        assert(conflict_free(next)) by {
            assert forall|j: int| 0 <= j < next.len() implies role_count(
                #[trigger] next[j].properties@,
            ) <= 1 by {
                if j < i {
                    assert(seen[j] == next[j]);
                }
            }
        }
        i = i + 1;
    }
    assert(tiles@.take(i as int) =~= tiles@);
    match start_tile {
        None => Err(ConfigurationError::MissingStartTile),
        Some(start_tile) => match end_tile {
            None => Err(ConfigurationError::MissingEndTile),
            Some(end_tile) => Ok(
                Classification { road_masks, construction_points, start_tile, end_tile },
            ),
        },
    }
}

} // verus!
