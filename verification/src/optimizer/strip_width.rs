//! The least width that a strip needs, whatever the placement.
use crate::scalar::{
    at_most, can_total, difference, greater, greater_of, lesser, lesser_of, product, quotient, sum,
    total, weighted_total, Scalar,
};
use vstd::prelude::*;
use vstd::std_specs::ops::{AddSpec, DivSpec, MulSpec, SubSpec};

verus! {

/// The rotations in which an item may be placed.
pub enum RotationRange<S> {
    /// None but the original one.
    Fixed,
    /// Any.
    Continuous,
    /// These.
    Discrete(Vec<S>),
}

/// The size of an item in one of its rotations.
#[derive(Debug)]
pub struct Pose<S> {
    pub width: S,
    pub height: S,
}

/// What the necessary width depends on, of an item: its diameter, and its size in each rotation that it may
/// be placed in. Where the rotations are continuous there are no poses.
pub struct StripItem<S> {
    pub diameter: S,
    pub poses: Option<Vec<Pose<S>>>,
}

/// The shape of the strip: its width, and the size of the container inside it.
pub struct StripShape<S> {
    pub strip_width: S,
    pub container_width: S,
    pub container_height: S,
}

/// The numbers that the computation uses.
pub struct Constants<S> {
    pub zero: S,
    pub one: S,
    pub infinity: S,
    /// The relative slack for rounding near exact fits.
    pub rel_tol: S,
}

/// The rotations to try: the original one, or those of the list. Continuous rotations are not
/// tried one by one.
pub fn candidate_rotations<S: Scalar>(range: RotationRange<S>, zero: S) -> (rotations: Option<
    Vec<S>,
>)
    ensures
        match range {
            RotationRange::Fixed => rotations is Some && rotations->0@ == seq![zero],
            RotationRange::Discrete(list) => rotations == Some(list),
            RotationRange::Continuous => rotations is None,
        },
{
    match range {
        RotationRange::Fixed => {
            let mut rotations: Vec<S> = Vec::new();
            rotations.push(zero);
            assert(rotations@ =~= seq![zero]);
            Some(rotations)
        },
        RotationRange::Discrete(list) => Some(list),
        RotationRange::Continuous => None,
    }
}

/// `width` is the width of a strip of the given height that is filled by items of these areas
/// and quantities.
pub open spec fn is_area_width<S: Scalar>(
    zero: S,
    areas: Seq<S>,
    quantities: Seq<S>,
    height: S,
    width: S,
) -> bool {
    exists|area: S| #[trigger]
        weighted_total(zero, areas, quantities, area) && quotient(area, height, width)
}

/// The width that the areas of the items take up can be computed.
pub open spec fn can_fill<S: Scalar>(zero: S, areas: Seq<S>, quantities: Seq<S>, height: S) -> bool {
    &&& areas.len() == quantities.len()
    &&& can_total(zero, areas, quantities)
    &&& forall|area: S| #[trigger]
        weighted_total(zero, areas, quantities, area) ==> area.div_req(height)
}

/// The width of a strip of the given height that is filled by the items.
pub fn area_width<S: Scalar>(zero: S, areas: &Vec<S>, quantities: &Vec<S>, height: S) -> (width: S)
    requires
        can_fill(zero, areas@, quantities@, height),
    ensures
        is_area_width(zero, areas@, quantities@, height, width),
{
    let area = total(zero, areas, quantities);
    area / height
}

/// A pose fits below the height, up to the tolerance.
pub open spec fn fits<S: Scalar>(pose: Pose<S>, height: S, tolerance: S, o: bool) -> bool {
    exists|tallest: S| #[trigger]
        sum(height, tolerance, tallest) && at_most(pose.height, tallest, o)
}

/// `r` is the width of a pose less the tolerance, not below zero.
pub open spec fn pose_width<S: Scalar>(pose: Pose<S>, tolerance: S, zero: S, r: S) -> bool {
    exists|cut: S| #[trigger] difference(pose.width, tolerance, cut) && greater_of(cut, zero, r)
}

/// Considering one more pose takes the least width found from `before` to `r`.
pub open spec fn narrowed<S: Scalar>(
    before: S,
    pose: Pose<S>,
    height: S,
    tolerance: S,
    zero: S,
    r: S,
) -> bool {
    ||| fits(pose, height, tolerance, false) && r == before
    ||| fits(pose, height, tolerance, true) && exists|width: S| #[trigger]
        pose_width(pose, tolerance, zero, width) && lesser_of(before, width, r)
}

/// `r` is the width of the narrowest of the poses that fit; infinity if none does.
pub open spec fn narrowest<S: Scalar>(
    poses: Seq<Pose<S>>,
    height: S,
    tolerance: S,
    zero: S,
    infinity: S,
    r: S,
) -> bool
    decreases poses.len(),
{
    if poses.len() == 0 {
        r == infinity
    } else {
        exists|before: S|
            {
                &&& narrowest(poses.drop_last(), height, tolerance, zero, infinity, before)
                &&& #[trigger] narrowed(before, poses.last(), height, tolerance, zero, r)
            }
    }
}

/// `r` is the width that an item with poses needs: that of the narrowest of them that fits, with a tolerance that goes by
/// the diameter.
pub open spec fn item_width<S: Scalar>(
    item: StripItem<S>,
    height: S,
    constants: Constants<S>,
    tolerance: S,
    r: S,
) -> bool {
    &&& item.poses is Some
    &&& product(item.diameter, constants.rel_tol, tolerance)
    &&& narrowest(item.poses->0@, height, tolerance, constants.zero, constants.infinity, r)
}

/// Considering one more item takes the width needed from `before` to `r`.
pub open spec fn widened<S: Scalar>(
    before: S,
    item: StripItem<S>,
    height: S,
    constants: Constants<S>,
    r: S,
) -> bool {
    if item.poses is None {
        r == before
    } else {
        exists|tolerance: S, width: S| #[trigger]
            item_width(item, height, constants, tolerance, width) && greater_of(before, width, r)
    }
}

/// `r` is the width that the container needs: `start`, or more where an item needs more.
pub open spec fn container_width<S: Scalar>(
    start: S,
    items: Seq<StripItem<S>>,
    height: S,
    constants: Constants<S>,
    r: S,
) -> bool
    decreases items.len(),
{
    if items.len() == 0 {
        r == start
    } else {
        exists|before: S|
            {
                &&& container_width(start, items.drop_last(), height, constants, before)
                &&& #[trigger] widened(before, items.last(), height, constants, r)
            }
    }
}

/// `start` is the width that the area of the items takes up, less the slack.
pub open spec fn start_width<S: Scalar>(area_width: S, constants: Constants<S>, start: S) -> bool {
    exists|share: S| #[trigger]
        difference(constants.one, constants.rel_tol, share) && product(area_width, share, start)
}

/// `r` is the width that the container needs and its inset, added up.
pub open spec fn measured<S: Scalar>(
    shape: StripShape<S>,
    area_width: S,
    items: Seq<StripItem<S>>,
    constants: Constants<S>,
    start: S,
    width: S,
    inset: S,
    r: S,
) -> bool {
    &&& start_width(area_width, constants, start)
    &&& container_width(start, items, shape.container_height, constants, width)
    &&& difference(shape.strip_width, shape.container_width, inset)
    &&& sum(width, inset, r)
}

/// `r` is the necessary width of the strip: that of the container, and the inset of the container.
pub open spec fn is_minimum_strip_width<S: Scalar>(
    shape: StripShape<S>,
    area_width: S,
    items: Seq<StripItem<S>>,
    constants: Constants<S>,
    r: S,
) -> bool {
    exists|start: S, width: S, inset: S| #[trigger]
        measured(shape, area_width, items, constants, start, width, inset, r)
}

/// The operations on one item can be computed.
pub open spec fn can_widen<S: Scalar>(item: StripItem<S>, height: S, constants: Constants<S>) -> bool {
    item.poses is Some ==> {
        &&& item.diameter.mul_req(constants.rel_tol)
        &&& forall|tolerance: S|
            #![trigger product(item.diameter, constants.rel_tol, tolerance)]
            product(item.diameter, constants.rel_tol, tolerance) ==> height.add_req(tolerance)
                && forall|i: int|
                0 <= i < item.poses->0@.len() ==> (#[trigger] item.poses->0@[i]).width.sub_req(
                    tolerance,
                )
    }
}

/// All operations of the necessary width can be computed.
pub open spec fn can_measure<S: Scalar>(
    shape: StripShape<S>,
    area_width: S,
    items: Seq<StripItem<S>>,
    constants: Constants<S>,
) -> bool {
    &&& constants.one.sub_req(constants.rel_tol)
    &&& forall|share: S| #[trigger]
        difference(constants.one, constants.rel_tol, share) ==> area_width.mul_req(share)
    &&& forall|i: int|
        0 <= i < items.len() ==> can_widen(#[trigger] items[i], shape.container_height, constants)
    &&& shape.strip_width.sub_req(shape.container_width)
    &&& forall|start: S, width: S, inset: S|
        #![trigger start_width(area_width, constants, start), container_width(start, items, shape.container_height, constants, width), difference(shape.strip_width, shape.container_width, inset)]
        start_width(area_width, constants, start) && container_width(
            start,
            items,
            shape.container_height,
            constants,
            width,
        ) && difference(shape.strip_width, shape.container_width, inset) ==> width.add_req(inset)
}

/// The width of the narrowest of the poses that fit; infinity if none does.
fn narrowest_pose<S: Scalar>(
    poses: &Vec<Pose<S>>,
    height: S,
    tolerance: S,
    zero: S,
    infinity: S,
) -> (width: S)
    requires
        height.add_req(tolerance),
        forall|i: int| 0 <= i < poses.len() ==> (#[trigger] poses@[i]).width.sub_req(tolerance),
    ensures
        narrowest(poses@, height, tolerance, zero, infinity, width),
{
    let mut width = infinity;
    let mut i: usize = 0;
    while i < poses.len()
        invariant
            i <= poses.len(),
            height.add_req(tolerance),
            forall|j: int| 0 <= j < poses.len() ==> (#[trigger] poses@[j]).width.sub_req(tolerance),
            narrowest(poses@.take(i as int), height, tolerance, zero, infinity, width),
        decreases poses.len() - i,
    {
        let ghost before = width;
        let pose = &poses[i];
        let tallest = height + tolerance;
        let fit = pose.height <= tallest;
        assert(sum(height, tolerance, tallest) && at_most(pose.height, tallest, fit));
        assert(fits(*pose, height, tolerance, fit));
        if fit {
            let cut = pose.width - tolerance;
            let pose_width = greater(cut, zero);
            assert(difference(pose.width, tolerance, cut));
            assert(self::pose_width(*pose, tolerance, zero, pose_width));
            width = lesser(width, pose_width);
        }
        proof {
            let upto = poses@.take(i + 1);
            assert(upto.drop_last() == poses@.take(i as int));
            assert(narrowed(before, upto.last(), height, tolerance, zero, width));
        }
        i += 1;
    }
    assert(poses@.take(i as int) == poses@);
    width
}

/// Necessary width for the collision geometry, including the container's inset. `area_width` is the
/// width that the area of the items takes up. Relative slack is left for rounding near exact fits.
pub fn minimum_strip_width<S: Scalar>(
    shape: &StripShape<S>,
    area_width: S,
    items: &Vec<StripItem<S>>,
    constants: &Constants<S>,
) -> (min_width: S)
    requires
        can_measure(*shape, area_width, items@, *constants),
    ensures
        is_minimum_strip_width(*shape, area_width, items@, *constants, min_width),
{
    let height = shape.container_height;
    let inset = shape.strip_width - shape.container_width;
    let share = constants.one - constants.rel_tol;
    assert(difference(constants.one, constants.rel_tol, share));
    let start = area_width * share;
    assert(start_width(area_width, *constants, start));
    let mut width = start;
    let mut i: usize = 0;
    while i < items.len()
        invariant
            i <= items.len(),
            height == shape.container_height,
            can_measure(*shape, area_width, items@, *constants),
            container_width(start, items@.take(i as int), height, *constants, width),
        decreases items.len() - i,
    {
        let ghost before = width;
        let item = &items[i];
        assert(can_widen(items@[i as int], height, *constants));
        if let Some(poses) = &item.poses {
            let tolerance = item.diameter * constants.rel_tol;
            assert(product(item.diameter, constants.rel_tol, tolerance));
            let item_width = narrowest_pose(
                poses,
                height,
                tolerance,
                constants.zero,
                constants.infinity,
            );
            assert(self::item_width(*item, height, *constants, tolerance, item_width));
            width = greater(width, item_width);
        }
        proof {
            let upto = items@.take(i + 1);
            assert(upto.drop_last() == items@.take(i as int));
            assert(widened(before, upto.last(), height, *constants, width));
        }
        i += 1;
    }
    assert(items@.take(i as int) == items@);
    assert(container_width(start, items@, height, *constants, width));
    assert(difference(shape.strip_width, shape.container_width, inset));
    let min_width = width + inset;
    assert(measured(*shape, area_width, items@, *constants, start, width, inset, min_width));
    min_width
}

} // verus!
