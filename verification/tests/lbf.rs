use jagua_rs::collision_detection::CDEConfig;
use jagua_rs::entities::Item;
use jagua_rs::geometry::fail_fast::SPSurrogateConfig;
use jagua_rs::geometry::geo_enums::RotationRange;
use jagua_rs::geometry::primitives::{Rect, SPolygon};
use jagua_rs::geometry::shape_modification::{ShapeModifyConfig, ShapeModifyMode};
use jagua_rs::geometry::{DTransformation, OriginalShape};
use jagua_rs::probs::spp::entities::{SPInstance, SPPlacement, SPProblem, Strip};
use ordered_float::OrderedFloat;
use rand::rngs::Xoshiro256PlusPlus;
use rand::{Rng, SeedableRng};
use sparrow::optimizer::lbf::{
    find_placement, item_size, placing_order, size_rank, width_limit, ConstructionError,
    Construction, LBFBuilder, PlaceStep, SampleEval,
};
use sparrow::optimizer::random::next_rng;

fn item(id: usize, width: f32, height: f32) -> Item {
    let shape = OriginalShape {
        shape: SPolygon::from(Rect::try_new(0.0, 0.0, width, height).unwrap()),
        pre_transform: DTransformation::empty(),
        modify_mode: ShapeModifyMode::Inflate,
        modify_config: ShapeModifyConfig::default(),
    };
    Item::new(id, shape, RotationRange::None, None, SPSurrogateConfig::none()).unwrap()
}

fn instance() -> SPInstance {
    let config = CDEConfig {
        quadtree_depth: 3,
        cd_threshold: 0,
        item_surrogate_config: SPSurrogateConfig::none(),
    };
    let strip = Strip::new(10.0, config, ShapeModifyConfig::default(), 20.0).unwrap();
    let items = vec![(item(0, 1.0, 1.0), 2), (item(1, 3.0, 2.0), 1), (item(2, 1.0, 1.0), 3)];
    SPInstance::new(items, strip)
}

fn sizes(instance: &SPInstance) -> Vec<u32> {
    instance
        .items
        .iter()
        .map(|(item, _)| {
            let shape = item.shape_cd.as_ref();
            item_size(shape.surrogate().convex_hull_area, shape.diameter).to_bits()
        })
        .collect()
}

fn builder() -> LBFBuilder<u8> {
    let instance = instance();
    let prob = SPProblem::new(instance.clone());
    LBFBuilder::new(instance, prob, Xoshiro256PlusPlus::seed_from_u64(1), 7)
}

fn construction(sizes: &[f32], quantities: &[usize]) -> Vec<usize> {
    let bits: Vec<u32> = sizes.iter().map(|size| size.to_bits()).collect();
    placing_order(&bits, &quantities.to_vec())
}

#[test]
fn error_in_words() {
    assert_eq!(
        ConstructionError { item_id: 0 }.message(),
        "could not construct an initial placement for item 0"
    );
    assert_eq!(
        ConstructionError { item_id: 9075 }.message(),
        "could not construct an initial placement for item 9075"
    );
    assert_eq!(
        ConstructionError { item_id: usize::MAX }.message(),
        format!("could not construct an initial placement for item {}", usize::MAX)
    );
}

#[test]
fn ranks_order_as_ordered_floats_do() {
    let mut values = vec![
        0.0f32,
        -0.0,
        1.0,
        -1.0,
        1.5,
        f32::MIN_POSITIVE,
        -f32::MIN_POSITIVE,
        f32::from_bits(1),
        f32::from_bits(0x8000_0001),
        f32::MAX,
        f32::MIN,
        f32::INFINITY,
        f32::NEG_INFINITY,
        f32::NAN,
        -f32::NAN,
        f32::from_bits(0x7f80_0001),
        f32::from_bits(0xffff_ffff),
    ];
    let mut rng = Xoshiro256PlusPlus::seed_from_u64(3);
    for _ in 0..100 {
        values.push(f32::from_bits((rng.next_u64() >> 32) as u32));
    }
    for a in &values {
        for b in &values {
            assert_eq!(
                size_rank(a.to_bits()).cmp(&size_rank(b.to_bits())),
                OrderedFloat(*a).cmp(&OrderedFloat(*b)),
                "{} and {}",
                a,
                b
            );
        }
    }
}

#[test]
fn rank_values() {
    assert_eq!(size_rank(0), 0);
    assert_eq!(size_rank(0x8000_0000), 0);
    assert_eq!(size_rank(0x8000_0005), -5);
    assert_eq!(size_rank(0x7f80_0000), 0x7f80_0000);
    assert_eq!(size_rank(0x7f80_0001), 0x8000_0000);
    assert_eq!(size_rank(0xff80_0001), 0x8000_0000);
}

#[test]
fn larger_items_first_and_all_their_copies() {
    assert_eq!(construction(&[2.0, 5.0, 3.0], &[1, 2, 3]), vec![1, 1, 2, 2, 2, 0]);
    // Items of equal size keep the order of their ids.
    assert_eq!(construction(&[1.0, 4.0, 1.0, 4.0], &[2, 1, 1, 1]), vec![1, 3, 0, 0, 2]);
    // An item that is not demanded is not placed, and surplus quantities are not looked at.
    assert_eq!(construction(&[1.0, 2.0], &[1, 0, 9]), vec![0]);
    assert_eq!(construction(&[], &[]), Vec::<usize>::new());
    assert_eq!(construction(&[1.0, f32::NAN, f32::INFINITY], &[1, 1, 1]), vec![1, 2, 0]);
}

#[test]
fn size_of_an_item() {
    assert_eq!(item_size(6.0f32, 0.5), 3.0);
}

#[test]
fn quantities_and_demand() {
    let mut builder = builder();
    assert_eq!(builder.sample_config, 7);
    assert_eq!(builder.item_quantities(), vec![2, 1, 3]);
    assert_eq!(builder.demand(), vec![2, 1, 3]);
    builder.prob.place_item(SPPlacement { item_id: 2, d_transf: DTransformation::new(0.0, (5.0, 5.0)) });
    assert_eq!(builder.item_quantities(), vec![2, 1, 3]);
    assert_eq!(builder.demand(), vec![2, 1, 2]);
}

#[test]
fn only_clear_samples_are_places() {
    let found = find_placement(4, Some(("here", SampleEval::Clear))).unwrap();
    assert_eq!((found.item_id, found.d_transf), (4, "here"));
    assert!(find_placement(4, Some(("here", SampleEval::Obstructed))).is_none());
    assert!(find_placement::<u8>(4, None).is_none());
}

#[test]
fn limit_of_the_strip() {
    assert_eq!(width_limit(2.0f32, 0.0, &vec![1.5, 2.0], &vec![2.0, 3.0]), 18.0);
    assert_eq!(width_limit(2.0f32, 0.0, &vec![], &vec![]), 0.0);
}

#[test]
fn a_construction_places_every_copy() {
    let mut builder = builder();
    let sizes = sizes(&builder.instance);
    let mut construction: Construction = builder.construct(&sizes);
    let mut placed = vec![];
    let mut x = 0.0f32;
    while let Some(item_id) = construction.pending() {
        let sample = Some((DTransformation::new(0.0, (x, 0.0)), SampleEval::Clear));
        match construction.place_item(sample, 20.0f32, 1.2, 100.0) {
            PlaceStep::Place(placement) => {
                assert_eq!(placement.item_id, item_id);
                placed.push(item_id);
                let d_transf = placement.d_transf;
                builder.prob.place_item(SPPlacement { item_id, d_transf });
            }
            _ => panic!("a clear sample is a place"),
        }
        x += 3.0;
    }
    assert_eq!(placed, vec![1, 0, 0, 2, 2, 2]);
    assert_eq!(builder.demand(), vec![0, 0, 0]);
}

#[test]
fn a_construction_needs_one_size_for_each_item() {
    let builder = builder();
    let mut sizes = sizes(&builder.instance);
    let construction = builder.try_construct(&sizes).unwrap();
    assert_eq!(construction.pending(), Some(1));
    sizes.pop();
    assert!(builder.try_construct(&sizes).is_none());
    sizes.extend([1, 1]);
    assert!(builder.try_construct(&sizes).is_none());
}

#[test]
fn the_strip_is_widened_up_to_the_limit() {
    let builder = builder();
    let mut construction = builder.construct(&sizes(&builder.instance));
    let mut width = 20.0f32;
    let mut widths = vec![];
    let error = loop {
        match construction.place_item::<u8, f32>(None, width, 1.5, 70.0) {
            PlaceStep::Widen(next) => {
                width = next;
                widths.push(next);
            }
            PlaceStep::Fail(error) => break error,
            PlaceStep::Place(_) => panic!("there is no sample"),
        }
        assert_eq!(construction.pending(), Some(1));
    };
    assert_eq!(widths, vec![30.0, 45.0, 67.5]);
    assert_eq!(error, ConstructionError { item_id: 1 });
    // Each widening gains at least what the first one does, so they end.
    assert!(20.0 + widths.len() as f32 * 10.0 < 70.0);
    // Reaching the limit is enough.
    assert!(matches!(
        construction.place_item::<u8, f32>(None, 20.0, 1.5, 30.0),
        PlaceStep::Fail(ConstructionError { item_id: 1 })
    ));
    // An obstructed sample is no place either.
    assert!(matches!(
        construction.place_item(Some((0u8, SampleEval::Obstructed)), 20.0f32, 1.5, 31.0),
        PlaceStep::Widen(_)
    ));
}

#[test]
fn generators_of_their_own() {
    let mut rng = Xoshiro256PlusPlus::seed_from_u64(42);
    let mut twin = Xoshiro256PlusPlus::seed_from_u64(42);
    for _ in 0..5 {
        let child = next_rng(&mut rng);
        assert_eq!(child, Xoshiro256PlusPlus::seed_from_u64(twin.next_u64()));
        assert_eq!(rng, twin);
        assert_ne!(child, rng);
    }
}
