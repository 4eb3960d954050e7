//! What is read of a layout: the hazards on it.
use crate::equality::exact_equality;
use jagua_rs::collision_detection::hazards::HazardEntity;
use jagua_rs::entities::{Layout, PItemKey};
use jagua_rs::geometry::primitives::SPolygon;
use std::sync::Arc;
use vstd::prelude::*;

verus! {

/// A layout of the `jagua-rs` crate.
#[verifier::external_type_specification]
#[verifier::external_body]
pub struct ExLayout(Layout);

/// The key of a placed item in a layout; it is carried, never looked into.
#[verifier::external_type_specification]
#[verifier::external_body]
pub struct ExPItemKey(PItemKey);

/// `==` on the keys of placed items, which `PItemKey` derives. Trusted: it compares the slot and the version of the
/// two keys, which is all that a key holds.
pub assume_specification[ <PItemKey as PartialEq>::eq ](a: &PItemKey, b: &PItemKey) -> (o: bool)
    ensures
        o == (*a == *b),
;

/// Keys of placed items are compared exactly.
pub proof fn keys_compare_exactly()
    ensures
        exact_equality::<PItemKey>(),
{
}

/// A shape of the `jagua-rs` crate; it is carried, never looked into.
#[verifier::external_type_specification]
#[verifier::external_body]
pub struct ExSPolygon(SPolygon);

/// What induces a hazard in the `jagua-rs` crate.
#[verifier::external_type_specification]
#[verifier::external_body]
pub struct ExHazardEntity(HazardEntity);

/// What induces a hazard. `K` is the key type of placed items.
#[derive(Clone, Copy, Debug)]
pub enum HazardKind<K> {
    /// An item in the layout, with the id of its type and its key.
    PlacedItem { id: usize, pk: K },
    /// Everything outside the container.
    Exterior,
    /// A hole in the container.
    Hole { idx: usize },
    /// A zone of the container whose quality is below the base quality.
    InferiorQualityZone { quality: usize, idx: usize },
}

/// What a `HazardEntity` of the `jagua-rs` crate is.
pub uninterp spec fn kind_of(entity: HazardEntity) -> HazardKind<PItemKey>;

/// Tells the variants of a `HazardEntity` apart. Trusted: the kind holds the fields of the variant, but for the
/// transformation of a placed item.
#[verifier::external_body]
fn entity_kind(entity: &HazardEntity) -> (kind: HazardKind<PItemKey>)
    ensures
        kind == kind_of(*entity),
{
    match *entity {
        HazardEntity::PlacedItem { id, pk, .. } => HazardKind::PlacedItem { id, pk },
        HazardEntity::Exterior => HazardKind::Exterior,
        HazardEntity::Hole { idx } => HazardKind::Hole { idx },
        HazardEntity::InferiorQualityZone { quality, idx } => {
            HazardKind::InferiorQualityZone { quality, idx }
        },
    }
}

/// The hazards that are registered on a layout: the entity that induces each, and its shape.
pub uninterp spec fn hazards_of(layout: Layout) -> Seq<(HazardEntity, Arc<SPolygon>)>;

/// Reads the entity and the shape of each hazard in the `hazards_map` of the layout's `CDEngine`. Trusted: the list
/// holds those of every hazard there, in the order of the map.
#[verifier::external_body]
fn layout_hazards(layout: &Layout) -> (hazards: Vec<(HazardEntity, Arc<SPolygon>)>)
    ensures
        hazards@ == hazards_of(*layout),
{
    layout.cde().hazards_map.values().map(|h| (h.entity, h.shape.clone())).collect()
}

/// What induces a hazard.
pub fn hazard_kind(entity: &HazardEntity) -> (kind: HazardKind<PItemKey>)
    ensures
        kind == kind_of(*entity),
{
    entity_kind(entity)
}

/// What induces each hazard of a layout, with its shape.
pub open spec fn hazard_kinds(layout: Layout) -> Seq<(HazardKind<PItemKey>, Arc<SPolygon>)> {
    hazards_of(layout).map_values(|hazard: (HazardEntity, Arc<SPolygon>)| (kind_of(hazard.0), hazard.1))
}

/// What induces each hazard of a layout, with its shape.
pub fn kinds_on_layout(layout: &Layout) -> (kinds: Vec<(HazardKind<PItemKey>, Arc<SPolygon>)>)
    ensures
        kinds@ == hazard_kinds(*layout),
{
    let hazards = layout_hazards(layout);
    let mut kinds: Vec<(HazardKind<PItemKey>, Arc<SPolygon>)> = Vec::new();
    for hazard in iter: hazards
        invariant
            iter.seq() == hazards_of(*layout),
            kinds@ == hazard_kinds(*layout).take(iter.index() as int),
    {
        let (entity, shape) = hazard;
        kinds.push((entity_kind(&entity), shape));
        assert(kinds@ =~= hazard_kinds(*layout).take(iter.index() + 1));
    }
    assert(kinds@ =~= hazard_kinds(*layout));
    kinds
}

/// The entities of the hazards of a layout.
pub open spec fn entities_of(layout: Layout) -> Seq<HazardEntity> {
    hazards_of(layout).map_values(|hazard: (HazardEntity, Arc<SPolygon>)| hazard.0)
}

/// The entities of the hazards of a layout.
pub fn entities_on_layout(layout: &Layout) -> (entities: Vec<HazardEntity>)
    ensures
        entities@ == entities_of(*layout),
{
    let hazards = layout_hazards(layout);
    let mut entities: Vec<HazardEntity> = Vec::new();
    for hazard in iter: hazards
        invariant
            iter.seq() == hazards_of(*layout),
            entities@ == entities_of(*layout).take(iter.index() as int),
    {
        let (entity, _) = hazard;
        entities.push(entity);
        assert(entities@ =~= entities_of(*layout).take(iter.index() + 1));
    }
    assert(entities@ =~= entities_of(*layout));
    entities
}

/// Every hazard of a layout is handed out, in order, with its own kind, entity and shape, and nothing else is.
pub proof fn law_every_hazard_is_handed_out(layout: Layout, i: int)
    ensures
        hazard_kinds(layout).len() == hazards_of(layout).len(),
        entities_of(layout).len() == hazards_of(layout).len(),
        0 <= i < hazards_of(layout).len() ==> {
            &&& hazard_kinds(layout)[i].0 == kind_of(hazards_of(layout)[i].0)
            &&& hazard_kinds(layout)[i].1 == hazards_of(layout)[i].1
            &&& entities_of(layout)[i] == hazards_of(layout)[i].0
        },
{
}

} // verus!
