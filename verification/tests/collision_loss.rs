use jagua_rs::collision_detection::hazards::{Hazard, HazardEntity};
use jagua_rs::collision_detection::CDEConfig;
use jagua_rs::entities::{Container, Item, Layout, PItemKey};
use jagua_rs::geometry::fail_fast::SPSurrogateConfig;
use jagua_rs::geometry::geo_enums::RotationRange;
use jagua_rs::geometry::primitives::{Rect, SPolygon};
use jagua_rs::geometry::shape_modification::{ShapeModifyConfig, ShapeModifyMode};
use jagua_rs::geometry::{DTransformation, OriginalShape};
use sparrow::eval::collision_loss::{CollisionLossEvaluator, LossSource, RawLoss};
use sparrow::layout::{entities_on_layout, hazard_kind, kinds_on_layout, HazardKind};
use sparrow::optimizer::hazards::missing_on_layout;
use std::sync::Arc;

fn evaluator() -> CollisionLossEvaluator<f32, u32, &'static str> {
    let hazards = vec![
        (HazardKind::Exterior, "outside"),
        (HazardKind::Hole { idx: 4 }, "four"),
        (HazardKind::PlacedItem { id: 0, pk: 1 }, "item"),
        (HazardKind::PlacedItem { id: 0, pk: 2 }, "item"),
        (HazardKind::PlacedItem { id: 3, pk: 3 }, "item"),
        (HazardKind::InferiorQualityZone { quality: 3, idx: 5 }, "zone"),
        (HazardKind::Hole { idx: 5 }, "five"),
        (HazardKind::Hole { idx: 4 }, "four again"),
    ];
    CollisionLossEvaluator::from_hazards(hazards, 9, 0.0, f32::INFINITY)
}

fn rect(x_min: f32, y_min: f32, x_max: f32, y_max: f32) -> SPolygon {
    SPolygon::from(Rect::try_new(x_min, y_min, x_max, y_max).unwrap())
}

fn layout_with_holes() -> Layout {
    let shape = OriginalShape {
        shape: rect(0.0, 0.0, 10.0, 10.0),
        pre_transform: DTransformation::empty(),
        modify_mode: ShapeModifyMode::Deflate,
        modify_config: ShapeModifyConfig::default(),
    };
    let config = CDEConfig {
        quadtree_depth: 3,
        cd_threshold: 0,
        item_surrogate_config: SPSurrogateConfig::none(),
    };
    let mut container = Container::new(0, shape, vec![], config).unwrap();
    let mut cde = container.base_cde.as_ref().clone();
    for idx in [3, 8] {
        let x = idx as f32;
        let hole = Arc::new(rect(x, 1.0, x + 1.0, 2.0));
        cde.register_hazard(Hazard::new(HazardEntity::Hole { idx }, hole, true));
    }
    container.base_cde = Arc::new(cde);
    Layout::new(container)
}

#[test]
fn sources_of_loss() {
    let evaluator = evaluator();
    assert!(matches!(
        evaluator.source(HazardKind::PlacedItem { id: 3, pk: 2 }),
        LossSource::Item { current: 9, other: 2 }
    ));
    assert!(matches!(
        evaluator.source(HazardKind::Exterior),
        LossSource::Container { current: 9 }
    ));
    // The first hole with the index is the one that counts.
    match evaluator.source(HazardKind::Hole { idx: 4 }) {
        LossSource::Hole { current, shape } => assert_eq!((current, *shape), (9, "four")),
        _ => panic!("a hole is quantified against its shape"),
    }
    match evaluator.source(HazardKind::Hole { idx: 5 }) {
        LossSource::Hole { current, shape } => assert_eq!((current, *shape), (9, "five")),
        _ => panic!("a hole is quantified against its shape"),
    }
}

#[test]
fn new_evaluator_is_unbounded() {
    let mut evaluator = evaluator();
    assert_eq!(evaluator.loss(), 0.0);
    assert!(!evaluator.add(HazardKind::PlacedItem { id: 0, pk: 1 }, RawLoss::Exact(1e30), 1e8));
    assert_eq!(evaluator.loss(), 1e38);
    // The accumulated loss overflows, and the evaluation stays unbounded.
    assert!(!evaluator.add(HazardKind::PlacedItem { id: 0, pk: 2 }, RawLoss::Exact(3e38), 1.0));
    assert_eq!(evaluator.loss(), f32::INFINITY);
    assert!(!evaluator.add(HazardKind::PlacedItem { id: 0, pk: 3 }, RawLoss::Exact(1.0), 1.0));
    assert_eq!(evaluator.raw_bound(2.0), f32::INFINITY);
}

#[test]
fn losses_add_up_to_the_bound() {
    let mut evaluator = evaluator();
    evaluator.reload(10.0);
    assert!(!evaluator.add(HazardKind::PlacedItem { id: 0, pk: 1 }, RawLoss::Exact(3.0), 2.0));
    assert_eq!(evaluator.loss(), 6.0);
    assert_eq!(evaluator.raw_bound(2.0), 2.0);
    // Exactly the bound is not above it.
    assert!(!evaluator.add(HazardKind::Hole { idx: 5 }, RawLoss::Exact(2.0), 2.0));
    assert_eq!(evaluator.loss(), 10.0);
    // What exceeds the rest stops the evaluation and adds nothing.
    assert!(evaluator.add(HazardKind::PlacedItem { id: 0, pk: 2 }, RawLoss::Exact(0.5), 1.0));
    assert_eq!(evaluator.loss(), 10.0);
}

#[test]
fn the_exterior_is_never_cut_off() {
    let mut evaluator = evaluator();
    evaluator.reload(1.0);
    assert!(evaluator.add(HazardKind::Exterior, RawLoss::Exact(4.0), 2.0));
    assert_eq!(evaluator.loss(), 8.0);
    // Then nothing is left for other hazards.
    assert!(evaluator.add(HazardKind::PlacedItem { id: 0, pk: 1 }, RawLoss::Exact(0.0), 1.0));
    assert_eq!(evaluator.loss(), 8.0);
}

#[test]
fn losses_quantified_under_a_bound() {
    let mut evaluator = evaluator();
    evaluator.reload(5.0);
    assert!(!evaluator.add(
        HazardKind::PlacedItem { id: 0, pk: 1 },
        RawLoss::Bounded(Some(2.0)),
        2.0
    ));
    assert_eq!(evaluator.loss(), 4.0);
    assert!(evaluator.add(HazardKind::PlacedItem { id: 0, pk: 2 }, RawLoss::Bounded(None), 2.0));
    assert_eq!(evaluator.loss(), 4.0);
    // A loss that is there is not held to the bound again, only the total is.
    assert!(evaluator.add(
        HazardKind::PlacedItem { id: 0, pk: 3 },
        RawLoss::Bounded(Some(2.0)),
        2.0
    ));
    assert_eq!(evaluator.loss(), 8.0);
}

#[test]
fn reload_starts_again() {
    let mut evaluator = evaluator();
    evaluator.reload(5.0);
    evaluator.add(HazardKind::Exterior, RawLoss::Exact(1.0), 1.0);
    evaluator.reload(2.0);
    assert_eq!(evaluator.loss(), 0.0);
    assert_eq!(evaluator.raw_bound(1.0), 2.0);
    assert_eq!(
        evaluator.calc_weighted_loss_bounded(HazardKind::Hole { idx: 4 }, RawLoss::Exact(1.5), 2.0, 3.0),
        Some(3.0)
    );
    assert_eq!(
        evaluator.calc_weighted_loss_bounded(HazardKind::Hole { idx: 4 }, RawLoss::Exact(2.0), 2.0, 3.0),
        None
    );
}

#[test]
fn whole_numbers_stop_exactly_above_the_bound() {
    for raw in 0..8i64 {
        for bound in 0..20i64 {
            let hazards = vec![(HazardKind::PlacedItem { id: 0, pk: 1u8 }, 0u8)];
            let mut evaluator = CollisionLossEvaluator::from_hazards(hazards, 0u8, 0i64, i64::MAX);
            evaluator.reload(bound);
            let stop = evaluator.add(HazardKind::PlacedItem { id: 0, pk: 1 }, RawLoss::Exact(raw), 3);
            assert_eq!(stop, raw * 3 > bound);
        }
    }
}

#[test]
fn hazards_that_a_loss_is_defined_for() {
    let evaluator = evaluator();
    assert!(evaluator.supports(HazardKind::PlacedItem { id: 3, pk: 2 }));
    assert!(!evaluator.supports(HazardKind::PlacedItem { id: 3, pk: 9 }));
    assert!(evaluator.supports(HazardKind::Exterior));
    assert!(evaluator.supports(HazardKind::Hole { idx: 5 }));
    assert!(!evaluator.supports(HazardKind::Hole { idx: 3 }));
    assert!(!evaluator.supports(HazardKind::InferiorQualityZone { quality: 3, idx: 5 }));
}

fn exact_evaluator(bound: i64) -> CollisionLossEvaluator<i64, u8, u8> {
    let hazards = vec![
        (HazardKind::PlacedItem { id: 0, pk: 1 }, 0),
        (HazardKind::PlacedItem { id: 0, pk: 2 }, 0),
        (HazardKind::Hole { idx: 0 }, 0),
    ];
    let mut evaluator = CollisionLossEvaluator::from_hazards(hazards, 0, 0, i64::MAX);
    evaluator.reload(bound);
    evaluator
}

#[test]
fn order_of_hazards_does_not_matter() {
    let losses = [
        (HazardKind::PlacedItem { id: 0, pk: 1 }, 2, 3),
        (HazardKind::Exterior, 4, 1),
        (HazardKind::Hole { idx: 0 }, 1, 5),
    ];
    let orders = [[0, 1, 2], [0, 2, 1], [1, 0, 2], [1, 2, 0], [2, 0, 1], [2, 1, 0]];
    for bound in 0..20i64 {
        for order in orders {
            let mut evaluator = exact_evaluator(bound);
            let stopped = order.iter().any(|&i| {
                let (hazard, raw, weight) = losses[i];
                evaluator.add(hazard, RawLoss::Exact(raw), weight)
            });
            assert_eq!(stopped, bound < 15);
            if !stopped {
                assert_eq!(evaluator.loss(), 15);
            }
        }
    }
}

#[test]
fn a_bound_never_changes_a_loss() {
    let evaluator = exact_evaluator(0);
    let hole = HazardKind::Hole { idx: 0 };
    let kept: Vec<Option<i64>> = [5, 6, 7, i64::MAX]
        .iter()
        .map(|&bound| evaluator.calc_weighted_loss_bounded(hole, RawLoss::Exact(2), 3, bound))
        .collect();
    assert_eq!(kept, vec![None, Some(6), Some(6), Some(6)]);
}

#[test]
fn nothing_survives_a_reload() {
    let mut used = exact_evaluator(3);
    assert!(used.add(HazardKind::Exterior, RawLoss::Exact(7), 2));
    used.reload(10);
    let mut fresh = exact_evaluator(10);
    assert_eq!(used.loss(), 0);
    for raw in [1, 2, 3] {
        let hazard = HazardKind::PlacedItem { id: 0, pk: 2 };
        assert_eq!(
            used.add(hazard, RawLoss::Exact(raw), 2),
            fresh.add(hazard, RawLoss::Exact(raw), 2)
        );
        assert_eq!(used.loss(), fresh.loss());
    }
}

#[test]
fn quantifying_under_a_bound_agrees() {
    for raw in 0..8i64 {
        let hazards = vec![(HazardKind::PlacedItem { id: 0, pk: 1u8 }, 0u8)];
        let mut evaluator = CollisionLossEvaluator::from_hazards(hazards, 0u8, 0i64, i64::MAX);
        evaluator.reload(10);
        let greatest = evaluator.raw_bound(3);
        assert_eq!(greatest, 3);
        let kept = if raw <= greatest { Some(raw) } else { None };
        let hazard = HazardKind::PlacedItem { id: 0, pk: 1 };
        assert_eq!(
            evaluator.calc_weighted_loss_bounded(hazard, RawLoss::Exact(raw), 3, 10),
            evaluator.calc_weighted_loss_bounded(hazard, RawLoss::Bounded(kept), 3, 10)
        );
    }
}

#[test]
fn holes_of_a_layout() {
    let layout = layout_with_holes();
    let kinds = kinds_on_layout(&layout);
    assert_eq!(kinds.len(), 3);
    assert!(matches!(kinds[0].0, HazardKind::Exterior));
    assert!(matches!(kinds[1].0, HazardKind::Hole { idx: 3 }));
    assert!(matches!(kinds[2].0, HazardKind::Hole { idx: 8 }));
    assert_eq!(kinds[2].1.bbox.x_min, 8.0);

    let mut evaluator =
        CollisionLossEvaluator::new(&layout, PItemKey::default(), 0.0f32, f32::INFINITY);
    evaluator.reload(1.0);
    evaluator.add(HazardKind::Hole { idx: 3 }, RawLoss::Exact(0.5), 1.0);
    assert!(evaluator.supports(HazardKind::Hole { idx: 3 }));
    assert!(!evaluator.supports(HazardKind::Hole { idx: 4 }));
    match evaluator.source(HazardKind::Hole { idx: 8 }) {
        LossSource::Hole { shape, .. } => assert_eq!(shape.bbox.x_min, 8.0),
        _ => panic!("a hole is quantified against its shape"),
    }
}

#[test]
fn placed_items_of_a_layout() {
    let mut layout = layout_with_holes();
    let shape = OriginalShape {
        shape: rect(0.0, 0.0, 1.0, 1.0),
        pre_transform: DTransformation::empty(),
        modify_mode: ShapeModifyMode::Inflate,
        modify_config: ShapeModifyConfig::default(),
    };
    let item = Item::new(0, shape, RotationRange::None, None, SPSurrogateConfig::none()).unwrap();
    let first = layout.place_item(&item, DTransformation::new(0.0, (5.0, 5.0)));
    let second = layout.place_item(&item, DTransformation::new(0.0, (7.0, 7.0)));
    let removed = layout.place_item(&item, DTransformation::new(0.0, (5.0, 8.0)));
    layout.remove_item(removed);
    let evaluator = CollisionLossEvaluator::new(&layout, first, 0.0f32, f32::INFINITY);
    let entity = |pk| HazardEntity::PlacedItem { id: 0, dt: DTransformation::empty(), pk };
    assert!(evaluator.supports_entity(&entity(first)));
    assert!(evaluator.supports_entity(&entity(second)));
    assert!(!evaluator.supports_entity(&entity(removed)));
    assert!(!evaluator.supports_entity(&entity(PItemKey::default())));
    assert!(evaluator.supports_entity(&HazardEntity::Hole { idx: 8 }));
    assert!(evaluator.supports_entity(&HazardEntity::Exterior));
    match evaluator.source(hazard_kind(&entity(second))) {
        LossSource::Item { current, other } => assert!(current == first && other == second),
        _ => panic!("a placed item is quantified against its shape"),
    }
}

#[test]
fn kinds_of_entities() {
    let pk = PItemKey::default();
    let item = HazardEntity::PlacedItem { id: 6, dt: DTransformation::empty(), pk };
    match hazard_kind(&item) {
        HazardKind::PlacedItem { id, pk: key } => assert!(id == 6 && key == pk),
        _ => panic!("a placed item"),
    }
    assert!(matches!(hazard_kind(&HazardEntity::Exterior), HazardKind::Exterior));
    assert!(matches!(hazard_kind(&HazardEntity::Hole { idx: 2 }), HazardKind::Hole { idx: 2 }));
    assert!(matches!(
        hazard_kind(&HazardEntity::InferiorQualityZone { quality: 1, idx: 7 }),
        HazardKind::InferiorQualityZone { quality: 1, idx: 7 }
    ));
}

#[test]
fn hazards_that_a_layout_lacks() {
    let layout = layout_with_holes();
    assert_eq!(entities_on_layout(&layout).len(), 3);
    let extra = vec![
        HazardEntity::Hole { idx: 8 },
        HazardEntity::Hole { idx: 1 },
        HazardEntity::Hole { idx: 3 },
        HazardEntity::Hole { idx: 1 },
        HazardEntity::Hole { idx: 2 },
    ];
    assert_eq!(missing_on_layout(&layout, &extra), vec![1, 4]);
}
