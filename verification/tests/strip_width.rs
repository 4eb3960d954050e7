use sparrow::optimizer::strip_width::{
    area_width, candidate_rotations, minimum_strip_width, Constants, Pose, RotationRange, StripItem,
    StripShape,
};
use sparrow::scalar::{greater, lesser, total};

fn constants(rel_tol: f32) -> Constants<f32> {
    Constants { zero: 0.0, one: 1.0, infinity: f32::INFINITY, rel_tol }
}

fn shape() -> StripShape<f32> {
    StripShape { strip_width: 20.0, container_width: 18.0, container_height: 10.0 }
}

fn item(poses: &[(f32, f32)]) -> StripItem<f32> {
    let poses = poses.iter().map(|&(width, height)| Pose { width, height }).collect();
    StripItem { diameter: 4.0, poses: Some(poses) }
}

#[test]
fn rotations_to_try() {
    assert_eq!(candidate_rotations(RotationRange::Fixed, 0.0f32), Some(vec![0.0]));
    assert_eq!(
        candidate_rotations(RotationRange::Discrete(vec![0.0f32, 1.5]), 0.0),
        Some(vec![0.0, 1.5])
    );
    assert_eq!(candidate_rotations(RotationRange::Continuous, 0.0f32), None);
}

#[test]
fn width_of_an_area() {
    assert_eq!(area_width(0.0f64, &vec![2.5, 4.0], &vec![2.0, 5.0], 10.0), 2.5);
}

#[test]
fn the_area_bounds_the_width() {
    assert_eq!(minimum_strip_width(&shape(), 7.0, &vec![], &constants(0.0)), 9.0);
    assert_eq!(minimum_strip_width(&shape(), 8.0, &vec![], &constants(0.25)), 8.0);
    let continuous = StripItem { diameter: 100.0, poses: None };
    assert_eq!(minimum_strip_width(&shape(), 7.0, &vec![continuous], &constants(0.0)), 9.0);
}

#[test]
fn the_widest_of_the_narrowest_poses_bounds_the_width() {
    let items = vec![item(&[(12.0, 3.0), (8.0, 9.0), (3.0, 12.0)]), item(&[(5.0, 5.0)])];
    assert_eq!(minimum_strip_width(&shape(), 7.0, &items, &constants(0.0)), 10.0);
}

#[test]
fn an_item_that_never_fits_needs_infinite_width() {
    let items = vec![item(&[(3.0, 12.0)])];
    assert_eq!(minimum_strip_width(&shape(), 7.0, &items, &constants(0.0)), f32::INFINITY);
    let items = vec![item(&[])];
    assert_eq!(minimum_strip_width(&shape(), 7.0, &items, &constants(0.0)), f32::INFINITY);
}

#[test]
fn slack_near_exact_fits() {
    // A tolerance of a quarter of the diameter is 1: a height of 11 still fits, and counts one less in width.
    let items = vec![item(&[(9.0, 11.0)])];
    assert_eq!(minimum_strip_width(&shape(), 4.0, &items, &constants(0.25)), 10.0);
    let items = vec![item(&[(9.0, 11.5)])];
    assert_eq!(minimum_strip_width(&shape(), 4.0, &items, &constants(0.25)), f32::INFINITY);
    // A width below the tolerance counts as none.
    let items = vec![item(&[(0.5, 1.0)])];
    assert_eq!(minimum_strip_width(&shape(), -4.0, &items, &constants(0.25)), 2.0);
}

#[test]
fn necessary_width_in_whole_numbers() {
    let shape = StripShape { strip_width: 20i64, container_width: 20, container_height: 10 };
    let constants = Constants { zero: 0, one: 1, infinity: i64::MAX, rel_tol: 0 };
    let poses = vec![Pose { width: 6, height: 9 }, Pose { width: 9, height: 6 }];
    let items = vec![StripItem { diameter: 11, poses: Some(poses) }];
    assert_eq!(minimum_strip_width(&shape, 5, &items, &constants), 6);
    assert_eq!(minimum_strip_width(&shape, 7, &items, &constants), 7);
}

#[test]
fn more_rotations_need_no_more_width() {
    let few = vec![item(&[(12.0, 3.0)]), item(&[(9.5, 5.0)])];
    let more = vec![item(&[(12.0, 3.0), (8.0, 9.0)]), item(&[(9.5, 5.0)])];
    let free = vec![item(&[(12.0, 3.0), (8.0, 9.0)]), StripItem { diameter: 4.0, poses: None }];
    assert_eq!(minimum_strip_width(&shape(), 7.0, &few, &constants(0.0)), 14.0);
    assert_eq!(minimum_strip_width(&shape(), 7.0, &more, &constants(0.0)), 11.5);
    assert_eq!(minimum_strip_width(&shape(), 7.0, &free, &constants(0.0)), 10.0);
}

#[test]
fn what_is_not_a_number_is_passed_over() {
    // Such a height never fits, and such a width counts as none.
    let items = vec![item(&[(9.0, f32::NAN), (12.0, 3.0)])];
    assert_eq!(minimum_strip_width(&shape(), 7.0, &items, &constants(0.0)), 14.0);
    let items = vec![item(&[(f32::NAN, 3.0), (12.0, 3.0)])];
    assert_eq!(minimum_strip_width(&shape(), 7.0, &items, &constants(0.0)), 9.0);
}

#[test]
fn more_demand_needs_no_less_width() {
    let items = vec![item(&[(4.0, 5.0)]), item(&[(2.0, 10.0)])];
    let width = |quantities: [f32; 2]| {
        let area_width = area_width(0.0, &vec![20.0, 20.0], &quantities.to_vec(), 10.0);
        minimum_strip_width(&shape(), area_width, &items, &constants(0.0))
    };
    assert_eq!(width([1.0, 1.0]), 6.0);
    assert_eq!(width([1.0, 2.0]), 8.0);
    assert_eq!(width([3.0, 2.0]), 12.0);
}

#[test]
fn width_of_the_strip_is_irrelevant() {
    let items = vec![item(&[(12.0, 3.0)])];
    let wider = StripShape { strip_width: 102.0, container_width: 100.0, container_height: 10.0 };
    assert_eq!(minimum_strip_width(&shape(), 7.0, &items, &constants(0.0)), 14.0);
    assert_eq!(minimum_strip_width(&wider, 7.0, &items, &constants(0.0)), 14.0);
}

#[test]
fn lesser_and_greater_skip_what_is_not_a_number() {
    assert_eq!(lesser(1.0f32, 2.0), 1.0);
    assert_eq!(lesser(2.0f32, 1.0), 1.0);
    assert_eq!(lesser(f32::NAN, 1.0), 1.0);
    assert_eq!(lesser(1.0, f32::NAN), 1.0);
    assert_eq!(greater(1.0f32, 2.0), 2.0);
    assert_eq!(greater(2.0f32, 1.0), 2.0);
    assert_eq!(greater(f32::NAN, 1.0), 1.0);
    assert_eq!(greater(1.0, f32::NAN), 1.0);
}

#[test]
fn total_of_products() {
    assert_eq!(total(1i64, &vec![2, 3], &vec![5, 7]), 32);
}
